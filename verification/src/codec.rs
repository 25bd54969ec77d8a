//! Wire codec: the byte representation of client and server messages.
//!
//! The wire format is a compact tagged binary encoding: integers are
//! little-endian `u64`, byte strings and lists carry a `u64` length or
//! count prefix, options and unions carry a one-byte tag. The encoding of
//! every message is defined as a specification function over the message's
//! mathematical view; the executable encoder produces exactly those bytes,
//! and the decoder accepts exactly them — decoding anything else reports a
//! decode error, which the engine drops without touching any state.

use vstd::prelude::*;

use vstd::bytes::{
    lemma_auto_spec_u64_to_from_le_bytes, spec_u64_to_le_bytes,
    u64_from_le_bytes, u64_to_le_bytes,
};

use crate::model::{
    views_of_chats, views_of_messages, views_of_users, Chat, ChatView, Message, MessageView, User,
    UserView,
};
use crate::protocol::{
    view_of_opt_bytes, ClientMessage, ClientMessageView, ClientPayload, ClientPayloadView,
    ResponsePayload, ResponsePayloadView, ServerMessage, ServerMessageView,
};

verus! {

// ---------------------------------------------------------------------
// Specification encoders
// ---------------------------------------------------------------------

/// Encoding of an integer: eight bytes, little endian.
pub open spec fn enc_u64(x: u64) -> Seq<u8> {
    spec_u64_to_le_bytes(x)
}

/// Encoding of a byte string: length, then the bytes.
pub open spec fn enc_bytes(b: Seq<u8>) -> Seq<u8> {
    enc_u64(b.len() as u64) + b
}

/// Encoding of an optional integer: presence tag, then the value.
pub open spec fn enc_opt_u64(o: Option<u64>) -> Seq<u8> {
    match o {
        None => seq![0u8],
        Some(x) => seq![1u8] + enc_u64(x),
    }
}

/// Encoding of an optional byte string: presence tag, then the string.
pub open spec fn enc_opt_bytes(o: Option<Seq<u8>>) -> Seq<u8> {
    match o {
        None => seq![0u8],
        Some(b) => seq![1u8] + enc_bytes(b),
    }
}

/// Encoding of a participant.
pub open spec fn enc_user(u: UserView) -> Seq<u8> {
    enc_u64(u.id) + enc_u64(u.last_message_seen_ts) + enc_bytes(u.display_name) + enc_bytes(
        u.profile_image,
    )
}

/// Encoding of a message.
pub open spec fn enc_message(m: MessageView) -> Seq<u8> {
    enc_u64(m.id) + enc_u64(m.chat_id) + enc_u64(m.created_at) + enc_opt_u64(m.creator)
        + enc_bytes(m.content)
}

/// Encoding of the elements of a participant list, in order.
pub open spec fn enc_users(us: Seq<UserView>) -> Seq<u8>
    decreases us.len(),
{
    if us.len() == 0 {
        Seq::empty()
    } else {
        enc_user(us[0]) + enc_users(us.skip(1))
    }
}

/// Encoding of a participant list: count, then the elements.
pub open spec fn enc_user_list(us: Seq<UserView>) -> Seq<u8> {
    enc_u64(us.len() as u64) + enc_users(us)
}

/// Encoding of the elements of a message list, in order.
pub open spec fn enc_messages(ms: Seq<MessageView>) -> Seq<u8>
    decreases ms.len(),
{
    if ms.len() == 0 {
        Seq::empty()
    } else {
        enc_message(ms[0]) + enc_messages(ms.skip(1))
    }
}

/// Encoding of a message list: count, then the elements.
pub open spec fn enc_message_list(ms: Seq<MessageView>) -> Seq<u8> {
    enc_u64(ms.len() as u64) + enc_messages(ms)
}

/// Encoding of a chat.
pub open spec fn enc_chat(c: ChatView) -> Seq<u8> {
    enc_u64(c.id) + enc_u64(c.last_message_ts) + enc_bytes(c.name) + enc_user_list(c.users)
        + enc_message_list(c.messages)
}

/// Encoding of the elements of a chat list, in order.
pub open spec fn enc_chats(cs: Seq<ChatView>) -> Seq<u8>
    decreases cs.len(),
{
    if cs.len() == 0 {
        Seq::empty()
    } else {
        enc_chat(cs[0]) + enc_chats(cs.skip(1))
    }
}

/// Encoding of a chat list: count, then the elements.
pub open spec fn enc_chat_list(cs: Seq<ChatView>) -> Seq<u8> {
    enc_u64(cs.len() as u64) + enc_chats(cs)
}

/// Encoding of a request payload: kind tag, then the fields.
pub open spec fn enc_client_payload(p: ClientPayloadView) -> Seq<u8> {
    match p {
        ClientPayloadView::GetChats => seq![1u8],
        ClientPayloadView::GetSelf => seq![2u8],
        ClientPayloadView::GetMessages { chat_id, older_than } => seq![3u8] + enc_u64(chat_id)
            + enc_opt_u64(older_than),
        ClientPayloadView::SendMessage { chat_id, content } => seq![4u8] + enc_u64(chat_id)
            + enc_bytes(content),
        ClientPayloadView::CreateChat { name } => seq![5u8] + enc_bytes(name),
        ClientPayloadView::JoinChat { chat_id } => seq![6u8] + enc_u64(chat_id),
        ClientPayloadView::UpdateProfile { display_name, profile_image } => seq![7u8]
            + enc_opt_bytes(display_name) + enc_opt_bytes(profile_image),
        ClientPayloadView::MarkChatRead { chat_id } => seq![8u8] + enc_u64(chat_id),
        ClientPayloadView::CallSignal { payload } => seq![9u8] + enc_bytes(payload),
    }
}

/// Encoding of a full request envelope: correlation id, then the payload.
pub open spec fn enc_client(m: ClientMessageView) -> Seq<u8> {
    enc_u64(m.id) + enc_client_payload(m.payload)
}

/// Encoding of a successful response payload: kind tag, then the fields.
pub open spec fn enc_response_payload(p: ResponsePayloadView) -> Seq<u8> {
    match p {
        ResponsePayloadView::Chats { chats } => seq![1u8] + enc_chat_list(chats),
        ResponsePayloadView::SelfProfile { user } => seq![2u8] + enc_user(user),
        ResponsePayloadView::Messages { messages } => seq![3u8] + enc_message_list(messages),
        ResponsePayloadView::MessageSent { message } => seq![4u8] + enc_message(message),
        ResponsePayloadView::ChatCreated { chat } => seq![5u8] + enc_chat(chat),
        ResponsePayloadView::ChatJoined => seq![6u8],
        ResponsePayloadView::MarkedRead => seq![7u8],
        ResponsePayloadView::CallSignal { payload } => seq![8u8] + enc_bytes(payload),
    }
}

/// Encoding of a response result: failure tag and message text, or success
/// tag and payload.
pub open spec fn enc_result(r: Result<ResponsePayloadView, Seq<u8>>) -> Seq<u8> {
    match r {
        Err(e) => seq![0u8] + enc_bytes(e),
        Ok(p) => seq![1u8] + enc_response_payload(p),
    }
}

/// Encoding of a server message: kind tag, then the fields.
pub open spec fn enc_server(m: ServerMessageView) -> Seq<u8> {
    match m {
        ServerMessageView::RequestResponse { id, result } => seq![1u8] + enc_u64(id) + enc_result(
            result,
        ),
        ServerMessageView::NewMessage { message } => seq![2u8] + enc_message(message),
        ServerMessageView::UserJoined { chat_id, user } => seq![3u8] + enc_u64(chat_id) + enc_user(
            user,
        ),
        ServerMessageView::ChatReadUpdated { chat_id, user_id, ts } => seq![4u8] + enc_u64(chat_id)
            + enc_u64(user_id) + enc_u64(ts),
        ServerMessageView::ProfileUpdated { user } => seq![5u8] + enc_user(user),
        ServerMessageView::CallSignal { payload } => seq![6u8] + enc_bytes(payload),
    }
}

// ---------------------------------------------------------------------
// Encodable values: every length and count fits its wire field
// ---------------------------------------------------------------------

/// A byte string whose length fits the wire's length field. Every view of
/// an executable vector satisfies this.
pub open spec fn bytes_ok(b: Seq<u8>) -> bool {
    b.len() <= u64::MAX
}

/// An optional byte string whose length fits.
pub open spec fn opt_bytes_ok(o: Option<Seq<u8>>) -> bool {
    match o {
        None => true,
        Some(b) => bytes_ok(b),
    }
}

/// A participant whose text fields fit.
pub open spec fn user_ok(u: UserView) -> bool {
    bytes_ok(u.display_name) && bytes_ok(u.profile_image)
}

/// A message whose body fits.
pub open spec fn message_ok(m: MessageView) -> bool {
    bytes_ok(m.content)
}

/// A participant list whose count and elements fit.
pub open spec fn users_ok(us: Seq<UserView>) -> bool {
    us.len() <= u64::MAX && (forall|i: int| 0 <= i < us.len() ==> user_ok(#[trigger] us[i]))
}

/// A message list whose count and elements fit.
pub open spec fn messages_ok(ms: Seq<MessageView>) -> bool {
    ms.len() <= u64::MAX && (forall|i: int| 0 <= i < ms.len() ==> message_ok(#[trigger] ms[i]))
}

/// A chat whose name, participants and window fit.
pub open spec fn chat_ok(c: ChatView) -> bool {
    bytes_ok(c.name) && users_ok(c.users) && messages_ok(c.messages)
}

/// A chat list whose count and elements fit.
pub open spec fn chats_ok(cs: Seq<ChatView>) -> bool {
    cs.len() <= u64::MAX && (forall|i: int| 0 <= i < cs.len() ==> chat_ok(#[trigger] cs[i]))
}

/// A response payload whose fields fit.
pub open spec fn response_payload_ok(p: ResponsePayloadView) -> bool {
    match p {
        ResponsePayloadView::Chats { chats } => chats_ok(chats),
        ResponsePayloadView::SelfProfile { user } => user_ok(user),
        ResponsePayloadView::Messages { messages } => messages_ok(messages),
        ResponsePayloadView::MessageSent { message } => message_ok(message),
        ResponsePayloadView::ChatCreated { chat } => chat_ok(chat),
        ResponsePayloadView::ChatJoined => true,
        ResponsePayloadView::MarkedRead => true,
        ResponsePayloadView::CallSignal { payload } => bytes_ok(payload),
    }
}

/// A server message whose fields fit.
pub open spec fn server_ok(m: ServerMessageView) -> bool {
    match m {
        ServerMessageView::RequestResponse { id: _, result } => match result {
            Ok(p) => response_payload_ok(p),
            Err(e) => bytes_ok(e),
        },
        ServerMessageView::NewMessage { message } => message_ok(message),
        ServerMessageView::UserJoined { chat_id: _, user } => user_ok(user),
        ServerMessageView::ChatReadUpdated { .. } => true,
        ServerMessageView::ProfileUpdated { user } => user_ok(user),
        ServerMessageView::CallSignal { payload } => bytes_ok(payload),
    }
}

// ---------------------------------------------------------------------
// Facts about the specification encoders
// ---------------------------------------------------------------------

/// Splitting a participant-list encoding at an element boundary.
pub proof fn lemma_enc_users_split(us: Seq<UserView>, i: int)
    requires
        0 <= i < us.len(),
    ensures
        enc_users(us) == enc_users(us.take(i)) + enc_user(us[i]) + enc_users(us.skip(i + 1)),
    decreases i,
{
    if i == 0 {
        assert(us.take(0) =~= Seq::empty());
        assert(enc_users(us.take(0)) =~= Seq::empty());
        assert(enc_users(us) == enc_user(us[0]) + enc_users(us.skip(1)));
        assert(enc_users(us) =~= enc_users(us.take(0)) + enc_user(us[0]) + enc_users(us.skip(1)));
    } else {
        let tl = us.skip(1);
        lemma_enc_users_split(tl, i - 1);
        assert(tl.take(i - 1) =~= us.take(i).skip(1));
        assert(tl[i - 1] == us[i]);
        assert(tl.skip(i) =~= us.skip(i + 1));
        assert(enc_users(us) == enc_user(us[0]) + enc_users(tl));
        assert(enc_users(us.take(i)) == enc_user(us.take(i)[0]) + enc_users(us.take(i).skip(1)));
        assert(us.take(i)[0] == us[0]);
        assert(enc_users(us) =~= enc_users(us.take(i)) + enc_user(us[i]) + enc_users(us.skip(i + 1)));
    }
}

/// Each participant occupies at least one byte, so a list of `n` elements
/// occupies at least `n` bytes.
pub proof fn lemma_enc_users_len(us: Seq<UserView>)
    ensures
        enc_users(us).len() >= us.len(),
    decreases us.len(),
{
    if us.len() > 0 {
        lemma_enc_users_len(us.skip(1));
        lemma_auto_spec_u64_to_from_le_bytes();
    }
}

/// Splitting a message-list encoding at an element boundary.
pub proof fn lemma_enc_messages_split(ms: Seq<MessageView>, i: int)
    requires
        0 <= i < ms.len(),
    ensures
        enc_messages(ms) == enc_messages(ms.take(i)) + enc_message(ms[i]) + enc_messages(
            ms.skip(i + 1),
        ),
    decreases i,
{
    if i == 0 {
        assert(ms.take(0) =~= Seq::empty());
        assert(enc_messages(ms.take(0)) =~= Seq::empty());
        assert(enc_messages(ms) =~= enc_messages(ms.take(0)) + enc_message(ms[0]) + enc_messages(
            ms.skip(1),
        ));
    } else {
        let tl = ms.skip(1);
        lemma_enc_messages_split(tl, i - 1);
        assert(tl.take(i - 1) =~= ms.take(i).skip(1));
        assert(tl[i - 1] == ms[i]);
        assert(tl.skip(i) =~= ms.skip(i + 1));
        assert(enc_messages(ms.take(i)) == enc_message(ms.take(i)[0]) + enc_messages(
            ms.take(i).skip(1),
        ));
        assert(ms.take(i)[0] == ms[0]);
        assert(enc_messages(ms) =~= enc_messages(ms.take(i)) + enc_message(ms[i]) + enc_messages(
            ms.skip(i + 1),
        ));
    }
}

/// Each message occupies at least one byte.
pub proof fn lemma_enc_messages_len(ms: Seq<MessageView>)
    ensures
        enc_messages(ms).len() >= ms.len(),
    decreases ms.len(),
{
    if ms.len() > 0 {
        lemma_enc_messages_len(ms.skip(1));
        lemma_auto_spec_u64_to_from_le_bytes();
    }
}

/// Splitting a chat-list encoding at an element boundary.
pub proof fn lemma_enc_chats_split(cs: Seq<ChatView>, i: int)
    requires
        0 <= i < cs.len(),
    ensures
        enc_chats(cs) == enc_chats(cs.take(i)) + enc_chat(cs[i]) + enc_chats(cs.skip(i + 1)),
    decreases i,
{
    if i == 0 {
        assert(cs.take(0) =~= Seq::empty());
        assert(enc_chats(cs.take(0)) =~= Seq::empty());
        assert(enc_chats(cs) =~= enc_chats(cs.take(0)) + enc_chat(cs[0]) + enc_chats(cs.skip(1)));
    } else {
        let tl = cs.skip(1);
        lemma_enc_chats_split(tl, i - 1);
        assert(tl.take(i - 1) =~= cs.take(i).skip(1));
        assert(tl[i - 1] == cs[i]);
        assert(tl.skip(i) =~= cs.skip(i + 1));
        assert(enc_chats(cs.take(i)) == enc_chat(cs.take(i)[0]) + enc_chats(cs.take(i).skip(1)));
        assert(cs.take(i)[0] == cs[0]);
        assert(enc_chats(cs) =~= enc_chats(cs.take(i)) + enc_chat(cs[i]) + enc_chats(
            cs.skip(i + 1),
        ));
    }
}

/// Each chat occupies at least one byte.
pub proof fn lemma_enc_chats_len(cs: Seq<ChatView>)
    ensures
        enc_chats(cs).len() >= cs.len(),
    decreases cs.len(),
{
    if cs.len() > 0 {
        lemma_enc_chats_len(cs.skip(1));
        lemma_auto_spec_u64_to_from_le_bytes();
    }
}

// ---------------------------------------------------------------------
// Executable encoders
// ---------------------------------------------------------------------

/// Appends the encoding of an integer.
fn write_u64(out: &mut Vec<u8>, x: u64)
    ensures
        final(out)@ == old(out)@ + enc_u64(x),
{
    let mut b = u64_to_le_bytes(x);
    out.append(&mut b);
}

/// Appends the encoding of a byte string.
fn write_bytes(out: &mut Vec<u8>, b: &Vec<u8>)
    ensures
        final(out)@ == old(out)@ + enc_bytes(b@),
{
    write_u64(out, b.len() as u64);
    let n = b.len();
    let ghost mid = out@;
    for i in 0..n
        invariant
            n == b.len(),
            out@ == mid + b@.subrange(0, i as int),
    {
        out.push(b[i]);
        proof {
            assert(out@ =~= mid + b@.subrange(0, i + 1));
        }
    }
    proof {
        assert(out@ =~= old(out)@ + enc_bytes(b@));
    }
}

/// Appends the encoding of an optional integer.
fn write_opt_u64(out: &mut Vec<u8>, o: &Option<u64>)
    ensures
        final(out)@ == old(out)@ + enc_opt_u64(*o),
{
    match o {
        None => {
            out.push(0u8);
            proof {
                assert(out@ =~= old(out)@ + enc_opt_u64(None::<u64>));
            }
        },
        Some(x) => {
            out.push(1u8);
            let ghost mid = out@;
            proof {
                assert(mid =~= old(out)@ + seq![1u8]);
            }
            write_u64(out, *x);
            proof {
                assert(out@ =~= old(out)@ + enc_opt_u64(Some(*x)));
            }
        },
    }
}

/// Appends the encoding of an optional byte string.
fn write_opt_bytes(out: &mut Vec<u8>, o: &Option<Vec<u8>>)
    ensures
        final(out)@ == old(out)@ + enc_opt_bytes(view_of_opt_bytes(*o)),
{
    match o {
        None => {
            out.push(0u8);
            proof {
                assert(out@ =~= old(out)@ + enc_opt_bytes(None::<Seq<u8>>));
            }
        },
        Some(b) => {
            out.push(1u8);
            write_bytes(out, b);
            proof {
                assert(out@ =~= old(out)@ + enc_opt_bytes(Some(b@)));
            }
        },
    }
}

/// Appends the encoding of a participant.
fn write_user(out: &mut Vec<u8>, u: &User)
    ensures
        final(out)@ == old(out)@ + enc_user(u@),
{
    write_u64(out, u.id);
    write_u64(out, u.last_message_seen_ts);
    write_bytes(out, &u.display_name);
    write_bytes(out, &u.profile_image);
    proof {
        assert(out@ =~= old(out)@ + enc_user(u@));
    }
}

/// Appends the encoding of a message.
fn write_message(out: &mut Vec<u8>, m: &Message)
    ensures
        final(out)@ == old(out)@ + enc_message(m@),
{
    write_u64(out, m.id);
    write_u64(out, m.chat_id);
    write_u64(out, m.created_at);
    write_opt_u64(out, &m.creator);
    write_bytes(out, &m.content);
    proof {
        assert(out@ =~= old(out)@ + enc_message(m@));
    }
}

/// Appends the encoding of a participant list.
fn write_user_list(out: &mut Vec<u8>, us: &Vec<User>)
    ensures
        final(out)@ == old(out)@ + enc_user_list(views_of_users(us@)),
{
    write_u64(out, us.len() as u64);
    let n = us.len();
    let ghost mid = out@;
    let ghost vs = views_of_users(us@);
    for i in 0..n
        invariant
            n == us.len(),
            vs == views_of_users(us@),
            out@ == mid + enc_users(vs.take(i as int)),
    {
        write_user(out, &us[i]);
        proof {
            lemma_enc_users_split(vs.take(i + 1), i as int);
            assert(vs.take(i + 1).take(i as int) =~= vs.take(i as int));
            assert(vs.take(i + 1).skip(i + 1) =~= Seq::empty());
            assert(vs.take(i + 1)[i as int] == us@[i as int]@);
            assert(out@ =~= mid + enc_users(vs.take(i + 1)));
        }
    }
    proof {
        assert(vs.take(n as int) =~= vs);
        assert(out@ =~= old(out)@ + enc_user_list(vs));
    }
}

/// Appends the encoding of a message list.
fn write_message_list(out: &mut Vec<u8>, ms: &Vec<Message>)
    ensures
        final(out)@ == old(out)@ + enc_message_list(views_of_messages(ms@)),
{
    write_u64(out, ms.len() as u64);
    let n = ms.len();
    let ghost mid = out@;
    let ghost vs = views_of_messages(ms@);
    for i in 0..n
        invariant
            n == ms.len(),
            vs == views_of_messages(ms@),
            out@ == mid + enc_messages(vs.take(i as int)),
    {
        write_message(out, &ms[i]);
        proof {
            lemma_enc_messages_split(vs.take(i + 1), i as int);
            assert(vs.take(i + 1).take(i as int) =~= vs.take(i as int));
            assert(vs.take(i + 1).skip(i + 1) =~= Seq::empty());
            assert(vs.take(i + 1)[i as int] == ms@[i as int]@);
            assert(out@ =~= mid + enc_messages(vs.take(i + 1)));
        }
    }
    proof {
        assert(vs.take(n as int) =~= vs);
        assert(out@ =~= old(out)@ + enc_message_list(vs));
    }
}

/// Appends the encoding of a chat.
fn write_chat(out: &mut Vec<u8>, c: &Chat)
    ensures
        final(out)@ == old(out)@ + enc_chat(c@),
{
    write_u64(out, c.id);
    write_u64(out, c.last_message_ts);
    write_bytes(out, &c.name);
    write_user_list(out, &c.users);
    write_message_list(out, &c.messages);
    proof {
        assert(out@ =~= old(out)@ + enc_chat(c@));
    }
}

/// Appends the encoding of a chat list.
fn write_chat_list(out: &mut Vec<u8>, cs: &Vec<Chat>)
    ensures
        final(out)@ == old(out)@ + enc_chat_list(views_of_chats(cs@)),
{
    write_u64(out, cs.len() as u64);
    let n = cs.len();
    let ghost mid = out@;
    let ghost vs = views_of_chats(cs@);
    for i in 0..n
        invariant
            n == cs.len(),
            vs == views_of_chats(cs@),
            out@ == mid + enc_chats(vs.take(i as int)),
    {
        write_chat(out, &cs[i]);
        proof {
            lemma_enc_chats_split(vs.take(i + 1), i as int);
            assert(vs.take(i + 1).take(i as int) =~= vs.take(i as int));
            assert(vs.take(i + 1).skip(i + 1) =~= Seq::empty());
            assert(vs.take(i + 1)[i as int] == cs@[i as int]@);
            assert(out@ =~= mid + enc_chats(vs.take(i + 1)));
        }
    }
    proof {
        assert(vs.take(n as int) =~= vs);
        assert(out@ =~= old(out)@ + enc_chat_list(vs));
    }
}

// ---------------------------------------------------------------------
// Decoder primitives
// ---------------------------------------------------------------------

/// `s` occupies the bytes of `buf` starting at `pos`.
pub open spec fn prefix_at(buf: Seq<u8>, pos: int, s: Seq<u8>) -> bool {
    &&& 0 <= pos
    &&& pos + s.len() <= buf.len()
    &&& buf.subrange(pos, pos + s.len() as int) == s
}

/// A prefix made of two parts splits into a prefix and a following prefix.
proof fn lemma_prefix_split(buf: Seq<u8>, pos: int, a: Seq<u8>, b: Seq<u8>)
    requires
        prefix_at(buf, pos, a + b),
    ensures
        prefix_at(buf, pos, a),
        prefix_at(buf, pos + a.len(), b),
{
    let ab = a + b;
    let n = a.len() as int;
    let m = b.len() as int;
    assert(buf.subrange(pos, pos + n) =~= a) by {
        assert forall|i: int| 0 <= i < n implies buf.subrange(pos, pos + n)[i] == a[i] by {
            assert(buf.subrange(pos, pos + ab.len() as int)[i] == ab[i]);
        }
    }
    assert(buf.subrange(pos + n, pos + n + m) =~= b) by {
        assert forall|i: int| 0 <= i < m implies buf.subrange(pos + n, pos + n + m)[i] == b[i] by {
            assert(buf.subrange(pos, pos + ab.len() as int)[n + i] == ab[n + i]);
            assert(ab[n + i] == b[i]);
        }
    }
}

/// Two integers with the same encoding are equal.
proof fn lemma_enc_u64_inj(x: u64, y: u64)
    requires
        enc_u64(x) == enc_u64(y),
    ensures
        x == y,
{
    lemma_auto_spec_u64_to_from_le_bytes();
}

/// Reads one byte.
fn read_u8(buf: &Vec<u8>, pos: usize) -> (r: Option<(u8, usize)>)
    requires
        pos <= buf@.len(),
    ensures
        match r {
            Some(p) => p.1 == pos + 1 && p.1 <= buf@.len() && buf@.subrange(
                pos as int,
                p.1 as int,
            ) == seq![p.0],
            None => buf@.len() == pos,
        },
{
    if pos < buf.len() {
        let x = buf[pos];
        proof {
            assert(buf@.subrange(pos as int, pos + 1) =~= seq![x]);
        }
        Some((x, pos + 1))
    } else {
        None
    }
}

/// Reads an integer.
fn read_u64(buf: &Vec<u8>, pos: usize) -> (r: Option<(u64, usize)>)
    requires
        pos <= buf@.len(),
    ensures
        match r {
            Some(p) => {
                &&& p.1 == pos + 8
                &&& p.1 <= buf@.len()
                &&& buf@.subrange(pos as int, p.1 as int) == enc_u64(p.0)
            },
            None => buf@.len() - pos < 8,
        },
{
    if buf.len() - pos >= 8 {
        let s = vstd::slice::slice_subrange(buf.as_slice(), pos, pos + 8);
        let x = u64_from_le_bytes(s);
        proof {
            lemma_auto_spec_u64_to_from_le_bytes();
            assert(buf@.subrange(pos as int, pos + 8) == enc_u64(x));
        }
        Some((x, pos + 8))
    } else {
        None
    }
}

/// Reads a length-prefixed byte string.
fn read_bytes(buf: &Vec<u8>, pos: usize) -> (r: Option<(Vec<u8>, usize)>)
    requires
        pos <= buf@.len(),
    ensures
        match r {
            Some(p) => {
                &&& pos <= p.1 <= buf@.len()
                &&& bytes_ok(p.0@)
                &&& buf@.subrange(pos as int, p.1 as int) == enc_bytes(p.0@)
                &&& p.1 == pos + enc_bytes(p.0@).len()
            },
            None => true,
        },
        forall|v: Seq<u8>|
            bytes_ok(v) && prefix_at(buf@, pos as int, #[trigger] enc_bytes(v)) ==> (r matches Some(
                p,
            ) && p.0@ == v && p.1 == pos + enc_bytes(v).len()),
{
    proof {
        lemma_auto_spec_u64_to_from_le_bytes();
    }
    let (len, mid) = match read_u64(buf, pos) {
        None => {
            proof {
                assert forall|v: Seq<u8>|
                    bytes_ok(v) && prefix_at(buf@, pos as int, #[trigger] enc_bytes(v))
                        implies false by {
                    lemma_prefix_split(buf@, pos as int, enc_u64(v.len() as u64), v);
                };
            }
            return None;
        },
        Some(p) => p,
    };
    if len > (buf.len() - mid) as u64 {
        proof {
            assert forall|v: Seq<u8>|
                bytes_ok(v) && prefix_at(buf@, pos as int, #[trigger] enc_bytes(v))
                    implies false by {
                lemma_prefix_split(buf@, pos as int, enc_u64(v.len() as u64), v);
                lemma_enc_u64_inj(len, v.len() as u64);
            };
        }
        return None;
    }
    let n = len as usize;
    let end = mid + n;
    let mut b: Vec<u8> = Vec::new();
    for i in 0..n
        invariant
            mid + n <= buf@.len(),
            buf@.len() <= usize::MAX,
            b@ == buf@.subrange(mid as int, mid + i),
    {
        b.push(buf[mid + i]);
        proof {
            assert(b@ =~= buf@.subrange(mid as int, mid + i + 1));
        }
    }
    proof {
        assert(buf@.subrange(pos as int, end as int) =~= enc_u64(len) + b@);
        assert(b@.len() == len);
        assert(enc_bytes(b@) == enc_u64(len) + b@);
        assert forall|v: Seq<u8>|
            bytes_ok(v) && prefix_at(buf@, pos as int, #[trigger] enc_bytes(v)) implies (b@ == v
            && end == pos + enc_bytes(v).len()) by {
            lemma_prefix_split(buf@, pos as int, enc_u64(v.len() as u64), v);
            lemma_enc_u64_inj(len, v.len() as u64);
            assert(v =~= buf@.subrange(mid as int, mid + v.len() as int));
        };
    }
    Some((b, end))
}

/// Reads an optional integer.
fn read_opt_u64(buf: &Vec<u8>, pos: usize) -> (r: Option<(Option<u64>, usize)>)
    requires
        pos <= buf@.len(),
    ensures
        match r {
            Some(p) => {
                &&& pos <= p.1 <= buf@.len()
                &&& buf@.subrange(pos as int, p.1 as int) == enc_opt_u64(p.0)
                &&& p.1 == pos + enc_opt_u64(p.0).len()
            },
            None => true,
        },
        forall|v: Option<u64>|
            prefix_at(buf@, pos as int, #[trigger] enc_opt_u64(v)) ==> (r matches Some(p) && p.0
                == v && p.1 == pos + enc_opt_u64(v).len()),
{
    proof {
        lemma_auto_spec_u64_to_from_le_bytes();
        assert forall|v: Option<u64>|
            prefix_at(buf@, pos as int, #[trigger] enc_opt_u64(v)) implies buf@.len() > pos
            && buf@[pos as int] == (if v is Some {
            1u8
        } else {
            0u8
        }) by {
            assert(enc_opt_u64(v)[0] == (if v is Some {
                1u8
            } else {
                0u8
            }));
            assert(buf@[pos as int] == buf@.subrange(
                pos as int,
                pos + enc_opt_u64(v).len() as int,
            )[0]);
        };
    }
    let (tag, mid) = match read_u8(buf, pos) {
        None => {
            return None;
        },
        Some(p) => p,
    };
    proof {
        assert(buf@[pos as int] == tag) by {
            assert(buf@.subrange(pos as int, pos as int + 1)[0] == tag);
        }
    }
    if tag == 0 {
        proof {
            assert(buf@.subrange(pos as int, mid as int) =~= enc_opt_u64(None::<u64>));
            assert forall|v: Option<u64>|
                prefix_at(buf@, pos as int, #[trigger] enc_opt_u64(v)) implies v is None by {
                assert(buf@[pos as int] == 0u8);
            };
        }
        Some((None, mid))
    } else if tag == 1 {
        match read_u64(buf, mid) {
            None => {
                proof {
                    assert forall|v: Option<u64>|
                        prefix_at(buf@, pos as int, #[trigger] enc_opt_u64(v)) implies false by {
                        if v is Some {
                            let x = v->0;
                            assert(enc_opt_u64(v) =~= seq![1u8] + enc_u64(x));
                            lemma_prefix_split(buf@, pos as int, seq![1u8], enc_u64(x));
                        }
                    };
                }
                None
            },
            Some((x, end)) => {
                proof {
                    assert(buf@.subrange(pos as int, end as int) =~= seq![1u8] + enc_u64(x));
                    assert(enc_opt_u64(Some(x)) =~= seq![1u8] + enc_u64(x));
                    assert forall|v: Option<u64>|
                        prefix_at(buf@, pos as int, #[trigger] enc_opt_u64(v)) implies (v == Some(
                        x,
                    ) && end == pos + enc_opt_u64(v).len()) by {
                        let y = v->0;
                        assert(enc_opt_u64(v) =~= seq![1u8] + enc_u64(y));
                        lemma_prefix_split(buf@, pos as int, seq![1u8], enc_u64(y));
                        assert(buf@.subrange(mid as int, mid + 8) == enc_u64(y));
                        lemma_enc_u64_inj(x, y);
                    };
                }
                Some((Some(x), end))
            },
        }
    } else {
        proof {
            assert forall|v: Option<u64>|
                prefix_at(buf@, pos as int, #[trigger] enc_opt_u64(v)) implies false by {
                assert(buf@[pos as int] == tag);
            };
        }
        None
    }
}

/// Reads an optional byte string.
fn read_opt_bytes(buf: &Vec<u8>, pos: usize) -> (r: Option<(Option<Vec<u8>>, usize)>)
    requires
        pos <= buf@.len(),
    ensures
        match r {
            Some(p) => {
                &&& pos <= p.1 <= buf@.len()
                &&& opt_bytes_ok(view_of_opt_bytes(p.0))
                &&& buf@.subrange(pos as int, p.1 as int) == enc_opt_bytes(view_of_opt_bytes(p.0))
                &&& p.1 == pos + enc_opt_bytes(view_of_opt_bytes(p.0)).len()
            },
            None => true,
        },
        forall|v: Option<Seq<u8>>|
            opt_bytes_ok(v) && prefix_at(buf@, pos as int, #[trigger] enc_opt_bytes(v)) ==> (
            r matches Some(p) && view_of_opt_bytes(p.0) == v && p.1 == pos + enc_opt_bytes(
                v,
            ).len()),
{
    proof {
        assert forall|v: Option<Seq<u8>>|
            prefix_at(buf@, pos as int, #[trigger] enc_opt_bytes(v)) implies buf@.len() > pos
            && buf@[pos as int] == (if v is Some {
            1u8
        } else {
            0u8
        }) by {
            assert(enc_opt_bytes(v)[0] == (if v is Some {
                1u8
            } else {
                0u8
            }));
            assert(buf@[pos as int] == buf@.subrange(
                pos as int,
                pos + enc_opt_bytes(v).len() as int,
            )[0]);
        };
    }
    let (tag, mid) = match read_u8(buf, pos) {
        None => {
            return None;
        },
        Some(p) => p,
    };
    proof {
        assert(buf@[pos as int] == tag) by {
            assert(buf@.subrange(pos as int, pos as int + 1)[0] == tag);
        }
    }
    if tag == 0 {
        proof {
            assert(buf@.subrange(pos as int, mid as int) =~= enc_opt_bytes(None::<Seq<u8>>));
            assert forall|v: Option<Seq<u8>>|
                prefix_at(buf@, pos as int, #[trigger] enc_opt_bytes(v)) implies v is None by {
                assert(buf@[pos as int] == 0u8);
            };
        }
        Some((None, mid))
    } else if tag == 1 {
        match read_bytes(buf, mid) {
            None => {
                proof {
                    assert forall|v: Option<Seq<u8>>|
                        opt_bytes_ok(v) && prefix_at(buf@, pos as int, #[trigger] enc_opt_bytes(v))
                        implies false by {
                        if v is Some {
                            let x = v->0;
                            assert(enc_opt_bytes(v) =~= seq![1u8] + enc_bytes(x));
                            lemma_prefix_split(buf@, pos as int, seq![1u8], enc_bytes(x));
                        }
                    };
                }
                None
            },
            Some((b, end)) => {
                proof {
                    assert(buf@.subrange(pos as int, end as int) =~= seq![1u8] + enc_bytes(b@));
                    assert(enc_opt_bytes(Some(b@)) =~= seq![1u8] + enc_bytes(b@));
                    assert forall|v: Option<Seq<u8>>|
                        opt_bytes_ok(v) && prefix_at(buf@, pos as int, #[trigger] enc_opt_bytes(v))
                        implies (view_of_opt_bytes(Some(b)) == v && end == pos + enc_opt_bytes(
                        v,
                    ).len()) by {
                        let y = v->0;
                        assert(enc_opt_bytes(v) =~= seq![1u8] + enc_bytes(y));
                        lemma_prefix_split(buf@, pos as int, seq![1u8], enc_bytes(y));
                    };
                }
                Some((Some(b), end))
            },
        }
    } else {
        proof {
            assert forall|v: Option<Seq<u8>>|
                prefix_at(buf@, pos as int, #[trigger] enc_opt_bytes(v)) implies false by {
                assert(buf@[pos as int] == tag);
            };
        }
        None
    }
}

/// The field positions inside an encoded participant.
proof fn lemma_user_fields(buf: Seq<u8>, pos: int, v: UserView)
    requires
        prefix_at(buf, pos, enc_user(v)),
    ensures
        prefix_at(buf, pos, enc_u64(v.id)),
        prefix_at(buf, pos + 8, enc_u64(v.last_message_seen_ts)),
        prefix_at(buf, pos + 16, enc_bytes(v.display_name)),
        prefix_at(buf, pos + 16 + enc_bytes(v.display_name).len(), enc_bytes(v.profile_image)),
{
    lemma_auto_spec_u64_to_from_le_bytes();
    lemma_prefix_split(
        buf,
        pos,
        enc_u64(v.id) + enc_u64(v.last_message_seen_ts) + enc_bytes(v.display_name),
        enc_bytes(v.profile_image),
    );
    lemma_prefix_split(
        buf,
        pos,
        enc_u64(v.id) + enc_u64(v.last_message_seen_ts),
        enc_bytes(v.display_name),
    );
    lemma_prefix_split(buf, pos, enc_u64(v.id), enc_u64(v.last_message_seen_ts));
}

/// Reads a participant.
fn read_user(buf: &Vec<u8>, pos: usize) -> (r: Option<(User, usize)>)
    requires
        pos <= buf@.len(),
    ensures
        match r {
            Some(p) => {
                &&& pos <= p.1 <= buf@.len()
                &&& user_ok(p.0@)
                &&& buf@.subrange(pos as int, p.1 as int) == enc_user(p.0@)
                &&& p.1 == pos + enc_user(p.0@).len()
            },
            None => true,
        },
        forall|v: UserView|
            user_ok(v) && prefix_at(buf@, pos as int, #[trigger] enc_user(v)) ==> (r matches Some(
                p,
            ) && p.0@ == v && p.1 == pos + enc_user(v).len()),
{
    proof {
        lemma_auto_spec_u64_to_from_le_bytes();
        assert forall|v: UserView|
            user_ok(v) && prefix_at(buf@, pos as int, #[trigger] enc_user(v)) implies prefix_at(
            buf@,
            pos as int,
            enc_u64(v.id),
        ) && prefix_at(buf@, pos + 8, enc_u64(v.last_message_seen_ts)) && prefix_at(
            buf@,
            pos + 16,
            enc_bytes(v.display_name),
        ) && prefix_at(
            buf@,
            pos + 16 + enc_bytes(v.display_name).len(),
            enc_bytes(v.profile_image),
        ) by {
            lemma_user_fields(buf@, pos as int, v);
        };
    }
    let (id, p1) = match read_u64(buf, pos) {
        None => {
            return None;
        },
        Some(x) => x,
    };
    let (seen, p2) = match read_u64(buf, p1) {
        None => {
            return None;
        },
        Some(x) => x,
    };
    let (name, p3) = match read_bytes(buf, p2) {
        None => {
            return None;
        },
        Some(x) => x,
    };
    proof {
        assert forall|v: UserView|
            user_ok(v) && prefix_at(buf@, pos as int, #[trigger] enc_user(v)) implies name@
            == v.display_name && p3 == pos + 16 + enc_bytes(v.display_name).len() by {
            lemma_enc_u64_inj(id, v.id);
        };
    }
    let (image, end) = match read_bytes(buf, p3) {
        None => {
            return None;
        },
        Some(x) => x,
    };
    let u = User { id, last_message_seen_ts: seen, display_name: name, profile_image: image };
    proof {
        assert(buf@.subrange(pos as int, end as int) =~= enc_u64(id) + enc_u64(seen) + enc_bytes(
            u.display_name@,
        ) + enc_bytes(u.profile_image@));
        assert(buf@.subrange(pos as int, end as int) == enc_user(u@));
        assert forall|v: UserView|
            user_ok(v) && prefix_at(buf@, pos as int, #[trigger] enc_user(v)) implies (u@ == v
            && end == pos + enc_user(v).len()) by {
            lemma_enc_u64_inj(id, v.id);
            lemma_enc_u64_inj(seen, v.last_message_seen_ts);
            assert(u@ =~= v);
        };
    }
    Some((u, end))
}

/// The field positions inside an encoded message.
proof fn lemma_message_fields(buf: Seq<u8>, pos: int, v: MessageView)
    requires
        prefix_at(buf, pos, enc_message(v)),
    ensures
        prefix_at(buf, pos, enc_u64(v.id)),
        prefix_at(buf, pos + 8, enc_u64(v.chat_id)),
        prefix_at(buf, pos + 16, enc_u64(v.created_at)),
        prefix_at(buf, pos + 24, enc_opt_u64(v.creator)),
        prefix_at(buf, pos + 24 + enc_opt_u64(v.creator).len(), enc_bytes(v.content)),
{
    lemma_auto_spec_u64_to_from_le_bytes();
    lemma_prefix_split(
        buf,
        pos,
        enc_u64(v.id) + enc_u64(v.chat_id) + enc_u64(v.created_at) + enc_opt_u64(v.creator),
        enc_bytes(v.content),
    );
    lemma_prefix_split(
        buf,
        pos,
        enc_u64(v.id) + enc_u64(v.chat_id) + enc_u64(v.created_at),
        enc_opt_u64(v.creator),
    );
    lemma_prefix_split(buf, pos, enc_u64(v.id) + enc_u64(v.chat_id), enc_u64(v.created_at));
    lemma_prefix_split(buf, pos, enc_u64(v.id), enc_u64(v.chat_id));
}

/// Reads a message.
fn read_message(buf: &Vec<u8>, pos: usize) -> (r: Option<(Message, usize)>)
    requires
        pos <= buf@.len(),
    ensures
        match r {
            Some(p) => {
                &&& pos <= p.1 <= buf@.len()
                &&& message_ok(p.0@)
                &&& buf@.subrange(pos as int, p.1 as int) == enc_message(p.0@)
                &&& p.1 == pos + enc_message(p.0@).len()
            },
            None => true,
        },
        forall|v: MessageView|
            message_ok(v) && prefix_at(buf@, pos as int, #[trigger] enc_message(v)) ==> (
            r matches Some(p) && p.0@ == v && p.1 == pos + enc_message(v).len()),
{
    proof {
        lemma_auto_spec_u64_to_from_le_bytes();
        assert forall|v: MessageView|
            message_ok(v) && prefix_at(buf@, pos as int, #[trigger] enc_message(v)) implies
            prefix_at(buf@, pos as int, enc_u64(v.id)) && prefix_at(
            buf@,
            pos + 8,
            enc_u64(v.chat_id),
        ) && prefix_at(buf@, pos + 16, enc_u64(v.created_at)) && prefix_at(
            buf@,
            pos + 24,
            enc_opt_u64(v.creator),
        ) && prefix_at(
            buf@,
            pos + 24 + enc_opt_u64(v.creator).len(),
            enc_bytes(v.content),
        ) by {
            lemma_message_fields(buf@, pos as int, v);
        };
    }
    let (id, p1) = match read_u64(buf, pos) {
        None => {
            return None;
        },
        Some(x) => x,
    };
    let (chat_id, p2) = match read_u64(buf, p1) {
        None => {
            return None;
        },
        Some(x) => x,
    };
    let (created_at, p3) = match read_u64(buf, p2) {
        None => {
            return None;
        },
        Some(x) => x,
    };
    let (creator, p4) = match read_opt_u64(buf, p3) {
        None => {
            return None;
        },
        Some(x) => x,
    };
    proof {
        assert forall|v: MessageView|
            message_ok(v) && prefix_at(buf@, pos as int, #[trigger] enc_message(v)) implies creator
            == v.creator && p4 == pos + 24 + enc_opt_u64(v.creator).len() by {
            lemma_enc_u64_inj(id, v.id);
        };
    }
    let (content, end) = match read_bytes(buf, p4) {
        None => {
            return None;
        },
        Some(x) => x,
    };
    let m = Message { id, chat_id, creator, content, created_at };
    proof {
        assert(buf@.subrange(pos as int, end as int) =~= enc_u64(id) + enc_u64(chat_id) + enc_u64(
            created_at,
        ) + enc_opt_u64(creator) + enc_bytes(m.content@));
        assert(buf@.subrange(pos as int, end as int) == enc_message(m@));
        assert forall|v: MessageView|
            message_ok(v) && prefix_at(buf@, pos as int, #[trigger] enc_message(v)) implies (m@
            == v && end == pos + enc_message(v).len()) by {
            lemma_enc_u64_inj(id, v.id);
            lemma_enc_u64_inj(chat_id, v.chat_id);
            lemma_enc_u64_inj(created_at, v.created_at);
            assert(m@ =~= v);
        };
    }
    Some((m, end))
}

/// Reads a participant list.
#[verifier::loop_isolation(false)]
fn read_user_list(buf: &Vec<u8>, pos: usize) -> (r: Option<(Vec<User>, usize)>)
    requires
        pos <= buf@.len(),
    ensures
        match r {
            Some(p) => {
                &&& pos <= p.1 <= buf@.len()
                &&& users_ok(views_of_users(p.0@))
                &&& buf@.subrange(pos as int, p.1 as int) == enc_user_list(views_of_users(p.0@))
                &&& p.1 == pos + enc_user_list(views_of_users(p.0@)).len()
            },
            None => true,
        },
        forall|v: Seq<UserView>|
            users_ok(v) && prefix_at(buf@, pos as int, #[trigger] enc_user_list(v)) ==> (
            r matches Some(p) && views_of_users(p.0@) == v && p.1 == pos + enc_user_list(v).len()),
{
    proof {
        lemma_auto_spec_u64_to_from_le_bytes();
        assert forall|v: Seq<UserView>|
            users_ok(v) && prefix_at(buf@, pos as int, #[trigger] enc_user_list(v)) implies
            prefix_at(buf@, pos as int, enc_u64(v.len() as u64)) && prefix_at(
            buf@,
            pos + 8,
            enc_users(v),
        ) by {
            lemma_prefix_split(buf@, pos as int, enc_u64(v.len() as u64), enc_users(v));
        };
    }
    let (count, mid) = match read_u64(buf, pos) {
        None => {
            return None;
        },
        Some(x) => x,
    };
    if count > (buf.len() - mid) as u64 {
        proof {
            assert forall|v: Seq<UserView>|
                users_ok(v) && prefix_at(buf@, pos as int, #[trigger] enc_user_list(v))
                implies false by {
                lemma_enc_u64_inj(count, v.len() as u64);
                lemma_enc_users_len(v);
            };
        }
        return None;
    }
    let n = count as usize;
    let mut out: Vec<User> = Vec::new();
    let mut cur = mid;
    for i in 0..n
        invariant
            out@.len() == i,
            mid <= cur <= buf@.len(),
            buf@.subrange(mid as int, cur as int) == enc_users(views_of_users(out@)),
            users_ok(views_of_users(out@)),
            cur == mid + enc_users(views_of_users(out@)).len(),
            forall|v: Seq<UserView>|
                users_ok(v) && v.len() == n && prefix_at(buf@, mid as int, #[trigger] enc_users(v))
                    ==> (views_of_users(out@) == v.take(i as int) && cur == mid + enc_users(
                    v.take(i as int),
                ).len()),
    {
        match read_user(buf, cur) {
            None => {
                proof {
                    assert forall|v: Seq<UserView>|
                        users_ok(v) && prefix_at(buf@, pos as int, #[trigger] enc_user_list(v))
                        implies false by {
                        lemma_enc_u64_inj(count, v.len() as u64);
                        lemma_enc_users_split(v, i as int);
                        lemma_prefix_split(
                            buf@,
                            mid as int,
                            enc_users(v.take(i as int)) + enc_user(v[i as int]),
                            enc_users(v.skip(i + 1)),
                        );
                        lemma_prefix_split(
                            buf@,
                            mid as int,
                            enc_users(v.take(i as int)),
                            enc_user(v[i as int]),
                        );
                        assert(prefix_at(buf@, cur as int, enc_user(v[i as int])));
                    };
                }
                return None;
            },
            Some((u, nxt)) => {
                let ghost prev = views_of_users(out@);
                out.push(u);
                proof {
                    assert(views_of_users(out@) =~= prev.push(u@));
                    lemma_enc_users_split(prev.push(u@), prev.len() as int);
                    assert(prev.push(u@).take(prev.len() as int) =~= prev);
                    assert(prev.push(u@).skip(prev.len() as int + 1) =~= Seq::empty());
                    assert(enc_users(prev.push(u@)) =~= enc_users(prev) + enc_user(u@));
                    assert(buf@.subrange(mid as int, nxt as int) =~= enc_users(prev) + enc_user(
                        u@,
                    ));
                    assert forall|v: Seq<UserView>|
                        users_ok(v) && v.len() == n && prefix_at(
                            buf@,
                            mid as int,
                            #[trigger] enc_users(v),
                        ) implies (views_of_users(out@) == v.take(i + 1) && nxt == mid + enc_users(
                        v.take(i + 1),
                    ).len()) by {
                        lemma_enc_users_split(v, i as int);
                        lemma_prefix_split(
                            buf@,
                            mid as int,
                            enc_users(v.take(i as int)) + enc_user(v[i as int]),
                            enc_users(v.skip(i + 1)),
                        );
                        lemma_prefix_split(
                            buf@,
                            mid as int,
                            enc_users(v.take(i as int)),
                            enc_user(v[i as int]),
                        );
                        assert(prefix_at(buf@, cur as int, enc_user(v[i as int])));
                        lemma_enc_users_split(v.take(i + 1), i as int);
                        assert(v.take(i + 1).take(i as int) =~= v.take(i as int));
                        assert(v.take(i + 1)[i as int] == v[i as int]);
                        assert(v.take(i + 1).skip(i + 1) =~= Seq::empty());
                        assert(enc_users(v.take(i + 1)) =~= enc_users(v.take(i as int)) + enc_user(
                            v[i as int],
                        ));
                        assert(views_of_users(out@) =~= v.take(i + 1));
                    };
                }
                cur = nxt;
            },
        }
    }
    proof {
        let vs = views_of_users(out@);
        assert(buf@.subrange(pos as int, cur as int) =~= enc_u64(count) + enc_users(vs));
        assert(buf@.subrange(pos as int, cur as int) == enc_user_list(vs));
        assert forall|v: Seq<UserView>|
            users_ok(v) && prefix_at(buf@, pos as int, #[trigger] enc_user_list(v)) implies (vs
            == v && cur == pos + enc_user_list(v).len()) by {
            lemma_enc_u64_inj(count, v.len() as u64);
            assert(vs == v.take(n as int));
            assert(v.take(n as int) =~= v);
        };
    }
    Some((out, cur))
}

/// Reads a message list.
#[verifier::loop_isolation(false)]
fn read_message_list(buf: &Vec<u8>, pos: usize) -> (r: Option<(Vec<Message>, usize)>)
    requires
        pos <= buf@.len(),
    ensures
        match r {
            Some(p) => {
                &&& pos <= p.1 <= buf@.len()
                &&& messages_ok(views_of_messages(p.0@))
                &&& buf@.subrange(pos as int, p.1 as int) == enc_message_list(
                    views_of_messages(p.0@),
                )
                &&& p.1 == pos + enc_message_list(views_of_messages(p.0@)).len()
            },
            None => true,
        },
        forall|v: Seq<MessageView>|
            messages_ok(v) && prefix_at(buf@, pos as int, #[trigger] enc_message_list(v)) ==> (
            r matches Some(p) && views_of_messages(p.0@) == v && p.1 == pos + enc_message_list(
                v,
            ).len()),
{
    proof {
        lemma_auto_spec_u64_to_from_le_bytes();
        assert forall|v: Seq<MessageView>|
            messages_ok(v) && prefix_at(buf@, pos as int, #[trigger] enc_message_list(v)) implies
            prefix_at(buf@, pos as int, enc_u64(v.len() as u64)) && prefix_at(
            buf@,
            pos + 8,
            enc_messages(v),
        ) by {
            lemma_prefix_split(buf@, pos as int, enc_u64(v.len() as u64), enc_messages(v));
        };
    }
    let (count, mid) = match read_u64(buf, pos) {
        None => {
            return None;
        },
        Some(x) => x,
    };
    if count > (buf.len() - mid) as u64 {
        proof {
            assert forall|v: Seq<MessageView>|
                messages_ok(v) && prefix_at(buf@, pos as int, #[trigger] enc_message_list(v))
                implies false by {
                lemma_enc_u64_inj(count, v.len() as u64);
                lemma_enc_messages_len(v);
            };
        }
        return None;
    }
    let n = count as usize;
    let mut out: Vec<Message> = Vec::new();
    let mut cur = mid;
    for i in 0..n
        invariant
            out@.len() == i,
            mid <= cur <= buf@.len(),
            buf@.subrange(mid as int, cur as int) == enc_messages(views_of_messages(out@)),
            messages_ok(views_of_messages(out@)),
            cur == mid + enc_messages(views_of_messages(out@)).len(),
            forall|v: Seq<MessageView>|
                messages_ok(v) && v.len() == n && prefix_at(
                    buf@,
                    mid as int,
                    #[trigger] enc_messages(v),
                ) ==> (views_of_messages(out@) == v.take(i as int) && cur == mid + enc_messages(
                    v.take(i as int),
                ).len()),
    {
        match read_message(buf, cur) {
            None => {
                proof {
                    assert forall|v: Seq<MessageView>|
                        messages_ok(v) && prefix_at(
                            buf@,
                            pos as int,
                            #[trigger] enc_message_list(v),
                        ) implies false by {
                        lemma_enc_u64_inj(count, v.len() as u64);
                        lemma_enc_messages_split(v, i as int);
                        lemma_prefix_split(
                            buf@,
                            mid as int,
                            enc_messages(v.take(i as int)) + enc_message(v[i as int]),
                            enc_messages(v.skip(i + 1)),
                        );
                        lemma_prefix_split(
                            buf@,
                            mid as int,
                            enc_messages(v.take(i as int)),
                            enc_message(v[i as int]),
                        );
                        assert(prefix_at(buf@, cur as int, enc_message(v[i as int])));
                    };
                }
                return None;
            },
            Some((m, nxt)) => {
                let ghost prev = views_of_messages(out@);
                out.push(m);
                proof {
                    assert(views_of_messages(out@) =~= prev.push(m@));
                    lemma_enc_messages_split(prev.push(m@), prev.len() as int);
                    assert(prev.push(m@).take(prev.len() as int) =~= prev);
                    assert(prev.push(m@).skip(prev.len() as int + 1) =~= Seq::empty());
                    assert(enc_messages(prev.push(m@)) =~= enc_messages(prev) + enc_message(m@));
                    assert(buf@.subrange(mid as int, nxt as int) =~= enc_messages(prev)
                        + enc_message(m@));
                    assert forall|v: Seq<MessageView>|
                        messages_ok(v) && v.len() == n && prefix_at(
                            buf@,
                            mid as int,
                            #[trigger] enc_messages(v),
                        ) implies (views_of_messages(out@) == v.take(i + 1) && nxt == mid
                        + enc_messages(v.take(i + 1)).len()) by {
                        lemma_enc_messages_split(v, i as int);
                        lemma_prefix_split(
                            buf@,
                            mid as int,
                            enc_messages(v.take(i as int)) + enc_message(v[i as int]),
                            enc_messages(v.skip(i + 1)),
                        );
                        lemma_prefix_split(
                            buf@,
                            mid as int,
                            enc_messages(v.take(i as int)),
                            enc_message(v[i as int]),
                        );
                        assert(prefix_at(buf@, cur as int, enc_message(v[i as int])));
                        lemma_enc_messages_split(v.take(i + 1), i as int);
                        assert(v.take(i + 1).take(i as int) =~= v.take(i as int));
                        assert(v.take(i + 1)[i as int] == v[i as int]);
                        assert(v.take(i + 1).skip(i + 1) =~= Seq::empty());
                        assert(enc_messages(v.take(i + 1)) =~= enc_messages(v.take(i as int))
                            + enc_message(v[i as int]));
                        assert(views_of_messages(out@) =~= v.take(i + 1));
                    };
                }
                cur = nxt;
            },
        }
    }
    proof {
        let vs = views_of_messages(out@);
        assert(buf@.subrange(pos as int, cur as int) =~= enc_u64(count) + enc_messages(vs));
        assert(buf@.subrange(pos as int, cur as int) == enc_message_list(vs));
        assert forall|v: Seq<MessageView>|
            messages_ok(v) && prefix_at(buf@, pos as int, #[trigger] enc_message_list(v)) implies (
        vs == v && cur == pos + enc_message_list(v).len()) by {
            lemma_enc_u64_inj(count, v.len() as u64);
            assert(vs == v.take(n as int));
            assert(v.take(n as int) =~= v);
        };
    }
    Some((out, cur))
}

/// The field positions inside an encoded chat.
proof fn lemma_chat_fields(buf: Seq<u8>, pos: int, v: ChatView)
    requires
        prefix_at(buf, pos, enc_chat(v)),
    ensures
        prefix_at(buf, pos, enc_u64(v.id)),
        prefix_at(buf, pos + 8, enc_u64(v.last_message_ts)),
        prefix_at(buf, pos + 16, enc_bytes(v.name)),
        prefix_at(buf, pos + 16 + enc_bytes(v.name).len(), enc_user_list(v.users)),
        prefix_at(
            buf,
            pos + 16 + enc_bytes(v.name).len() + enc_user_list(v.users).len(),
            enc_message_list(v.messages),
        ),
{
    lemma_auto_spec_u64_to_from_le_bytes();
    lemma_prefix_split(
        buf,
        pos,
        enc_u64(v.id) + enc_u64(v.last_message_ts) + enc_bytes(v.name) + enc_user_list(v.users),
        enc_message_list(v.messages),
    );
    lemma_prefix_split(
        buf,
        pos,
        enc_u64(v.id) + enc_u64(v.last_message_ts) + enc_bytes(v.name),
        enc_user_list(v.users),
    );
    lemma_prefix_split(buf, pos, enc_u64(v.id) + enc_u64(v.last_message_ts), enc_bytes(v.name));
    lemma_prefix_split(buf, pos, enc_u64(v.id), enc_u64(v.last_message_ts));
}

/// Reads a chat.
fn read_chat(buf: &Vec<u8>, pos: usize) -> (r: Option<(Chat, usize)>)
    requires
        pos <= buf@.len(),
    ensures
        match r {
            Some(p) => {
                &&& pos <= p.1 <= buf@.len()
                &&& chat_ok(p.0@)
                &&& buf@.subrange(pos as int, p.1 as int) == enc_chat(p.0@)
                &&& p.1 == pos + enc_chat(p.0@).len()
            },
            None => true,
        },
        forall|v: ChatView|
            chat_ok(v) && prefix_at(buf@, pos as int, #[trigger] enc_chat(v)) ==> (r matches Some(
                p,
            ) && p.0@ == v && p.1 == pos + enc_chat(v).len()),
{
    proof {
        lemma_auto_spec_u64_to_from_le_bytes();
        assert forall|v: ChatView|
            chat_ok(v) && prefix_at(buf@, pos as int, #[trigger] enc_chat(v)) implies prefix_at(
            buf@,
            pos as int,
            enc_u64(v.id),
        ) && prefix_at(buf@, pos + 8, enc_u64(v.last_message_ts)) && prefix_at(
            buf@,
            pos + 16,
            enc_bytes(v.name),
        ) && prefix_at(buf@, pos + 16 + enc_bytes(v.name).len(), enc_user_list(v.users))
            && prefix_at(
            buf@,
            pos + 16 + enc_bytes(v.name).len() + enc_user_list(v.users).len(),
            enc_message_list(v.messages),
        ) by {
            lemma_chat_fields(buf@, pos as int, v);
        };
    }
    let (id, p1) = match read_u64(buf, pos) {
        None => {
            return None;
        },
        Some(x) => x,
    };
    let (last_ts, p2) = match read_u64(buf, p1) {
        None => {
            return None;
        },
        Some(x) => x,
    };
    let (name, p3) = match read_bytes(buf, p2) {
        None => {
            return None;
        },
        Some(x) => x,
    };
    proof {
        assert forall|v: ChatView|
            chat_ok(v) && prefix_at(buf@, pos as int, #[trigger] enc_chat(v)) implies name@
            == v.name && p3 == pos + 16 + enc_bytes(v.name).len() by {
            lemma_enc_u64_inj(id, v.id);
        };
    }
    let (users, p4) = match read_user_list(buf, p3) {
        None => {
            return None;
        },
        Some(x) => x,
    };
    proof {
        assert forall|v: ChatView|
            chat_ok(v) && prefix_at(buf@, pos as int, #[trigger] enc_chat(v)) implies
            views_of_users(users@) == v.users && p4 == pos + 16 + enc_bytes(v.name).len()
            + enc_user_list(v.users).len() by {
            lemma_enc_u64_inj(id, v.id);
        };
    }
    let (messages, end) = match read_message_list(buf, p4) {
        None => {
            return None;
        },
        Some(x) => x,
    };
    let c = Chat { id, name, users, messages, last_message_ts: last_ts };
    proof {
        assert(buf@.subrange(pos as int, end as int) =~= enc_u64(id) + enc_u64(last_ts)
            + enc_bytes(c.name@) + enc_user_list(views_of_users(c.users@)) + enc_message_list(
            views_of_messages(c.messages@),
        ));
        assert(buf@.subrange(pos as int, end as int) == enc_chat(c@));
        assert forall|v: ChatView|
            chat_ok(v) && prefix_at(buf@, pos as int, #[trigger] enc_chat(v)) implies (c@ == v
            && end == pos + enc_chat(v).len()) by {
            lemma_enc_u64_inj(id, v.id);
            lemma_enc_u64_inj(last_ts, v.last_message_ts);
            assert(c@ =~= v);
        };
    }
    Some((c, end))
}

/// Reads a chat list.
#[verifier::loop_isolation(false)]
fn read_chat_list(buf: &Vec<u8>, pos: usize) -> (r: Option<(Vec<Chat>, usize)>)
    requires
        pos <= buf@.len(),
    ensures
        match r {
            Some(p) => {
                &&& pos <= p.1 <= buf@.len()
                &&& chats_ok(views_of_chats(p.0@))
                &&& buf@.subrange(pos as int, p.1 as int) == enc_chat_list(views_of_chats(p.0@))
                &&& p.1 == pos + enc_chat_list(views_of_chats(p.0@)).len()
            },
            None => true,
        },
        forall|v: Seq<ChatView>|
            chats_ok(v) && prefix_at(buf@, pos as int, #[trigger] enc_chat_list(v)) ==> (
            r matches Some(p) && views_of_chats(p.0@) == v && p.1 == pos + enc_chat_list(v).len()),
{
    proof {
        lemma_auto_spec_u64_to_from_le_bytes();
        assert forall|v: Seq<ChatView>|
            chats_ok(v) && prefix_at(buf@, pos as int, #[trigger] enc_chat_list(v)) implies
            prefix_at(buf@, pos as int, enc_u64(v.len() as u64)) && prefix_at(
            buf@,
            pos + 8,
            enc_chats(v),
        ) by {
            lemma_prefix_split(buf@, pos as int, enc_u64(v.len() as u64), enc_chats(v));
        };
    }
    let (count, mid) = match read_u64(buf, pos) {
        None => {
            return None;
        },
        Some(x) => x,
    };
    if count > (buf.len() - mid) as u64 {
        proof {
            assert forall|v: Seq<ChatView>|
                chats_ok(v) && prefix_at(buf@, pos as int, #[trigger] enc_chat_list(v))
                implies false by {
                lemma_enc_u64_inj(count, v.len() as u64);
                lemma_enc_chats_len(v);
            };
        }
        return None;
    }
    let n = count as usize;
    let mut out: Vec<Chat> = Vec::new();
    let mut cur = mid;
    for i in 0..n
        invariant
            out@.len() == i,
            mid <= cur <= buf@.len(),
            buf@.subrange(mid as int, cur as int) == enc_chats(views_of_chats(out@)),
            chats_ok(views_of_chats(out@)),
            cur == mid + enc_chats(views_of_chats(out@)).len(),
            forall|v: Seq<ChatView>|
                chats_ok(v) && v.len() == n && prefix_at(buf@, mid as int, #[trigger] enc_chats(v))
                    ==> (views_of_chats(out@) == v.take(i as int) && cur == mid + enc_chats(
                    v.take(i as int),
                ).len()),
    {
        match read_chat(buf, cur) {
            None => {
                proof {
                    assert forall|v: Seq<ChatView>|
                        chats_ok(v) && prefix_at(buf@, pos as int, #[trigger] enc_chat_list(v))
                        implies false by {
                        lemma_enc_u64_inj(count, v.len() as u64);
                        lemma_enc_chats_split(v, i as int);
                        lemma_prefix_split(
                            buf@,
                            mid as int,
                            enc_chats(v.take(i as int)) + enc_chat(v[i as int]),
                            enc_chats(v.skip(i + 1)),
                        );
                        lemma_prefix_split(
                            buf@,
                            mid as int,
                            enc_chats(v.take(i as int)),
                            enc_chat(v[i as int]),
                        );
                        assert(prefix_at(buf@, cur as int, enc_chat(v[i as int])));
                    };
                }
                return None;
            },
            Some((c, nxt)) => {
                let ghost prev = views_of_chats(out@);
                out.push(c);
                proof {
                    assert(views_of_chats(out@) =~= prev.push(c@));
                    lemma_enc_chats_split(prev.push(c@), prev.len() as int);
                    assert(prev.push(c@).take(prev.len() as int) =~= prev);
                    assert(prev.push(c@).skip(prev.len() as int + 1) =~= Seq::empty());
                    assert(enc_chats(prev.push(c@)) =~= enc_chats(prev) + enc_chat(c@));
                    assert(buf@.subrange(mid as int, nxt as int) =~= enc_chats(prev) + enc_chat(
                        c@,
                    ));
                    assert forall|v: Seq<ChatView>|
                        chats_ok(v) && v.len() == n && prefix_at(
                            buf@,
                            mid as int,
                            #[trigger] enc_chats(v),
                        ) implies (views_of_chats(out@) == v.take(i + 1) && nxt == mid + enc_chats(
                        v.take(i + 1),
                    ).len()) by {
                        lemma_enc_chats_split(v, i as int);
                        lemma_prefix_split(
                            buf@,
                            mid as int,
                            enc_chats(v.take(i as int)) + enc_chat(v[i as int]),
                            enc_chats(v.skip(i + 1)),
                        );
                        lemma_prefix_split(
                            buf@,
                            mid as int,
                            enc_chats(v.take(i as int)),
                            enc_chat(v[i as int]),
                        );
                        assert(prefix_at(buf@, cur as int, enc_chat(v[i as int])));
                        lemma_enc_chats_split(v.take(i + 1), i as int);
                        assert(v.take(i + 1).take(i as int) =~= v.take(i as int));
                        assert(v.take(i + 1)[i as int] == v[i as int]);
                        assert(v.take(i + 1).skip(i + 1) =~= Seq::empty());
                        assert(enc_chats(v.take(i + 1)) =~= enc_chats(v.take(i as int)) + enc_chat(
                            v[i as int],
                        ));
                        assert(views_of_chats(out@) =~= v.take(i + 1));
                    };
                }
                cur = nxt;
            },
        }
    }
    proof {
        let vs = views_of_chats(out@);
        assert(buf@.subrange(pos as int, cur as int) =~= enc_u64(count) + enc_chats(vs));
        assert(buf@.subrange(pos as int, cur as int) == enc_chat_list(vs));
        assert forall|v: Seq<ChatView>|
            chats_ok(v) && prefix_at(buf@, pos as int, #[trigger] enc_chat_list(v)) implies (vs
            == v && cur == pos + enc_chat_list(v).len()) by {
            lemma_enc_u64_inj(count, v.len() as u64);
            assert(vs == v.take(n as int));
            assert(v.take(n as int) =~= v);
        };
    }
    Some((out, cur))
}

/// The kind tag of a response payload.
pub open spec fn resp_tag(p: ResponsePayloadView) -> u8 {
    match p {
        ResponsePayloadView::Chats { .. } => 1u8,
        ResponsePayloadView::SelfProfile { .. } => 2u8,
        ResponsePayloadView::Messages { .. } => 3u8,
        ResponsePayloadView::MessageSent { .. } => 4u8,
        ResponsePayloadView::ChatCreated { .. } => 5u8,
        ResponsePayloadView::ChatJoined => 6u8,
        ResponsePayloadView::MarkedRead => 7u8,
        ResponsePayloadView::CallSignal { .. } => 8u8,
    }
}

/// Reads a successful response payload.
fn read_response_payload(buf: &Vec<u8>, pos: usize) -> (r: Option<(ResponsePayload, usize)>)
    requires
        pos <= buf@.len(),
    ensures
        match r {
            Some(p) => {
                &&& pos <= p.1 <= buf@.len()
                &&& response_payload_ok(p.0@)
                &&& buf@.subrange(pos as int, p.1 as int) == enc_response_payload(p.0@)
                &&& p.1 == pos + enc_response_payload(p.0@).len()
            },
            None => true,
        },
        forall|v: ResponsePayloadView|
            response_payload_ok(v) && prefix_at(buf@, pos as int, #[trigger] enc_response_payload(v))
                ==> (r matches Some(p) && p.0@ == v && p.1 == pos + enc_response_payload(v).len()),
{
    proof {
        assert forall|v: ResponsePayloadView|
            response_payload_ok(v) && prefix_at(
                buf@,
                pos as int,
                #[trigger] enc_response_payload(v),
            ) implies buf@.len() > pos && buf@[pos as int] == resp_tag(v) && prefix_at(
            buf@,
            pos + 1,
            enc_resp_body(v),
        ) by {
            assert(enc_response_payload(v) =~= seq![resp_tag(v)] + enc_resp_body(v));
            lemma_prefix_split(buf@, pos as int, seq![resp_tag(v)], enc_resp_body(v));
            assert(buf@[pos as int] == buf@.subrange(pos as int, pos + 1)[0]);
        };
    }
    let (tag, mid) = match read_u8(buf, pos) {
        None => {
            return None;
        },
        Some(p) => p,
    };
    proof {
        assert(buf@[pos as int] == tag) by {
            assert(buf@.subrange(pos as int, pos as int + 1)[0] == tag);
        }
    }
    if tag == 1 {
        match read_chat_list(buf, mid) {
            None => None,
            Some((chats, end)) => {
                let p = ResponsePayload::Chats { chats };
                proof {
                    assert(buf@.subrange(pos as int, end as int) =~= seq![1u8] + enc_chat_list(
                        views_of_chats(p->Chats_chats@),
                    ));
                    assert forall|v: ResponsePayloadView|
                        response_payload_ok(v) && prefix_at(
                            buf@,
                            pos as int,
                            #[trigger] enc_response_payload(v),
                        ) implies (p@ == v && end == pos + enc_response_payload(v).len()) by {
                        assert(v is Chats);
                        assert(p@ =~= v);
                    };
                }
                Some((p, end))
            },
        }
    } else if tag == 2 {
        match read_user(buf, mid) {
            None => None,
            Some((user, end)) => {
                let p = ResponsePayload::SelfProfile { user };
                proof {
                    assert(buf@.subrange(pos as int, end as int) =~= seq![2u8] + enc_user(
                        p->SelfProfile_user@,
                    ));
                    assert forall|v: ResponsePayloadView|
                        response_payload_ok(v) && prefix_at(
                            buf@,
                            pos as int,
                            #[trigger] enc_response_payload(v),
                        ) implies (p@ == v && end == pos + enc_response_payload(v).len()) by {
                        assert(v is SelfProfile);
                        assert(p@ =~= v);
                    };
                }
                Some((p, end))
            },
        }
    } else if tag == 3 {
        match read_message_list(buf, mid) {
            None => None,
            Some((messages, end)) => {
                let p = ResponsePayload::Messages { messages };
                proof {
                    assert(buf@.subrange(pos as int, end as int) =~= seq![3u8] + enc_message_list(
                        views_of_messages(p->Messages_messages@),
                    ));
                    assert forall|v: ResponsePayloadView|
                        response_payload_ok(v) && prefix_at(
                            buf@,
                            pos as int,
                            #[trigger] enc_response_payload(v),
                        ) implies (p@ == v && end == pos + enc_response_payload(v).len()) by {
                        assert(v is Messages);
                        assert(p@ =~= v);
                    };
                }
                Some((p, end))
            },
        }
    } else if tag == 4 {
        match read_message(buf, mid) {
            None => None,
            Some((message, end)) => {
                let p = ResponsePayload::MessageSent { message };
                proof {
                    assert(buf@.subrange(pos as int, end as int) =~= seq![4u8] + enc_message(
                        p->MessageSent_message@,
                    ));
                    assert forall|v: ResponsePayloadView|
                        response_payload_ok(v) && prefix_at(
                            buf@,
                            pos as int,
                            #[trigger] enc_response_payload(v),
                        ) implies (p@ == v && end == pos + enc_response_payload(v).len()) by {
                        assert(v is MessageSent);
                        assert(p@ =~= v);
                    };
                }
                Some((p, end))
            },
        }
    } else if tag == 5 {
        match read_chat(buf, mid) {
            None => None,
            Some((chat, end)) => {
                let p = ResponsePayload::ChatCreated { chat };
                proof {
                    assert(buf@.subrange(pos as int, end as int) =~= seq![5u8] + enc_chat(
                        p->ChatCreated_chat@,
                    ));
                    assert forall|v: ResponsePayloadView|
                        response_payload_ok(v) && prefix_at(
                            buf@,
                            pos as int,
                            #[trigger] enc_response_payload(v),
                        ) implies (p@ == v && end == pos + enc_response_payload(v).len()) by {
                        assert(v is ChatCreated);
                        assert(p@ =~= v);
                    };
                }
                Some((p, end))
            },
        }
    } else if tag == 6 {
        let p = ResponsePayload::ChatJoined;
        proof {
            assert(buf@.subrange(pos as int, mid as int) =~= seq![6u8]);
            assert forall|v: ResponsePayloadView|
                response_payload_ok(v) && prefix_at(
                    buf@,
                    pos as int,
                    #[trigger] enc_response_payload(v),
                ) implies (p@ == v && mid == pos + enc_response_payload(v).len()) by {
                assert(v is ChatJoined);
            };
        }
        Some((p, mid))
    } else if tag == 7 {
        let p = ResponsePayload::MarkedRead;
        proof {
            assert(buf@.subrange(pos as int, mid as int) =~= seq![7u8]);
            assert forall|v: ResponsePayloadView|
                response_payload_ok(v) && prefix_at(
                    buf@,
                    pos as int,
                    #[trigger] enc_response_payload(v),
                ) implies (p@ == v && mid == pos + enc_response_payload(v).len()) by {
                assert(v is MarkedRead);
            };
        }
        Some((p, mid))
    } else if tag == 8 {
        match read_bytes(buf, mid) {
            None => None,
            Some((payload, end)) => {
                let p = ResponsePayload::CallSignal { payload };
                proof {
                    assert(buf@.subrange(pos as int, end as int) =~= seq![8u8] + enc_bytes(
                        p->CallSignal_payload@,
                    ));
                    assert forall|v: ResponsePayloadView|
                        response_payload_ok(v) && prefix_at(
                            buf@,
                            pos as int,
                            #[trigger] enc_response_payload(v),
                        ) implies (p@ == v && end == pos + enc_response_payload(v).len()) by {
                        assert(v is CallSignal);
                        assert(p@ =~= v);
                    };
                }
                Some((p, end))
            },
        }
    } else {
        None
    }
}

/// The bytes of a response payload after its kind tag.
pub open spec fn enc_resp_body(p: ResponsePayloadView) -> Seq<u8> {
    match p {
        ResponsePayloadView::Chats { chats } => enc_chat_list(chats),
        ResponsePayloadView::SelfProfile { user } => enc_user(user),
        ResponsePayloadView::Messages { messages } => enc_message_list(messages),
        ResponsePayloadView::MessageSent { message } => enc_message(message),
        ResponsePayloadView::ChatCreated { chat } => enc_chat(chat),
        ResponsePayloadView::ChatJoined => Seq::empty(),
        ResponsePayloadView::MarkedRead => Seq::empty(),
        ResponsePayloadView::CallSignal { payload } => enc_bytes(payload),
    }
}

/// Validity of a response result for the wire.
pub open spec fn result_ok_wire(r: Result<ResponsePayloadView, Seq<u8>>) -> bool {
    match r {
        Ok(p) => response_payload_ok(p),
        Err(e) => bytes_ok(e),
    }
}

/// Reads a response result.
fn read_result(buf: &Vec<u8>, pos: usize) -> (r: Option<(Result<ResponsePayload, Vec<u8>>, usize)>)
    requires
        pos <= buf@.len(),
    ensures
        match r {
            Some(p) => {
                &&& pos <= p.1 <= buf@.len()
                &&& result_ok_wire(view_of_result(p.0))
                &&& buf@.subrange(pos as int, p.1 as int) == enc_result(view_of_result(p.0))
                &&& p.1 == pos + enc_result(view_of_result(p.0)).len()
            },
            None => true,
        },
        forall|v: Result<ResponsePayloadView, Seq<u8>>|
            result_ok_wire(v) && prefix_at(buf@, pos as int, #[trigger] enc_result(v)) ==> (
            r matches Some(p) && view_of_result(p.0) == v && p.1 == pos + enc_result(v).len()),
{
    proof {
        assert forall|v: Result<ResponsePayloadView, Seq<u8>>|
            result_ok_wire(v) && prefix_at(buf@, pos as int, #[trigger] enc_result(v)) implies
            buf@.len() > pos && buf@[pos as int] == (if v is Ok {
            1u8
        } else {
            0u8
        }) && (v matches Ok(p) ==> prefix_at(buf@, pos + 1, enc_response_payload(p))) && (
        v matches Err(e) ==> prefix_at(buf@, pos + 1, enc_bytes(e))) by {
            match v {
                Ok(p) => {
                    assert(enc_result(v) =~= seq![1u8] + enc_response_payload(p));
                    lemma_prefix_split(buf@, pos as int, seq![1u8], enc_response_payload(p));
                },
                Err(e) => {
                    assert(enc_result(v) =~= seq![0u8] + enc_bytes(e));
                    lemma_prefix_split(buf@, pos as int, seq![0u8], enc_bytes(e));
                },
            }
            assert(buf@[pos as int] == buf@.subrange(pos as int, pos + 1)[0]);
        };
    }
    let (tag, mid) = match read_u8(buf, pos) {
        None => {
            return None;
        },
        Some(p) => p,
    };
    proof {
        assert(buf@[pos as int] == tag) by {
            assert(buf@.subrange(pos as int, pos as int + 1)[0] == tag);
        }
    }
    if tag == 0 {
        match read_bytes(buf, mid) {
            None => None,
            Some((e, end)) => {
                let out: Result<ResponsePayload, Vec<u8>> = Err(e);
                proof {
                    assert(buf@.subrange(pos as int, end as int) =~= seq![0u8] + enc_bytes(
                        out->Err_0@,
                    ));
                    assert forall|v: Result<ResponsePayloadView, Seq<u8>>|
                        result_ok_wire(v) && prefix_at(buf@, pos as int, #[trigger] enc_result(v))
                        implies (view_of_result(out) == v && end == pos + enc_result(v).len()) by {
                        assert(v is Err);
                    };
                }
                Some((out, end))
            },
        }
    } else if tag == 1 {
        match read_response_payload(buf, mid) {
            None => None,
            Some((p, end)) => {
                let out: Result<ResponsePayload, Vec<u8>> = Ok(p);
                proof {
                    assert(buf@.subrange(pos as int, end as int) =~= seq![1u8]
                        + enc_response_payload(out->Ok_0@));
                    assert forall|v: Result<ResponsePayloadView, Seq<u8>>|
                        result_ok_wire(v) && prefix_at(buf@, pos as int, #[trigger] enc_result(v))
                        implies (view_of_result(out) == v && end == pos + enc_result(v).len()) by {
                        assert(v is Ok);
                    };
                }
                Some((out, end))
            },
        }
    } else {
        None
    }
}

/// View of an executable response result.
pub open spec fn view_of_result(r: Result<ResponsePayload, Vec<u8>>) -> Result<
    ResponsePayloadView,
    Seq<u8>,
> {
    match r {
        Ok(p) => Ok(p@),
        Err(e) => Err(e@),
    }
}

/// Encodes an outgoing request envelope into its wire bytes.
pub fn encode_client(m: &ClientMessage) -> (out: Vec<u8>)
    ensures
        out@ == enc_client(m@),
{
    let mut out: Vec<u8> = Vec::new();
    write_u64(&mut out, m.id);
    match &m.payload {
        ClientPayload::GetChats => {
            out.push(1u8);
        },
        ClientPayload::GetSelf => {
            out.push(2u8);
        },
        ClientPayload::GetMessages { chat_id, older_than } => {
            out.push(3u8);
            write_u64(&mut out, *chat_id);
            write_opt_u64(&mut out, older_than);
        },
        ClientPayload::SendMessage { chat_id, content } => {
            out.push(4u8);
            write_u64(&mut out, *chat_id);
            write_bytes(&mut out, content);
        },
        ClientPayload::CreateChat { name } => {
            out.push(5u8);
            write_bytes(&mut out, name);
        },
        ClientPayload::JoinChat { chat_id } => {
            out.push(6u8);
            write_u64(&mut out, *chat_id);
        },
        ClientPayload::UpdateProfile { display_name, profile_image } => {
            out.push(7u8);
            write_opt_bytes(&mut out, display_name);
            write_opt_bytes(&mut out, profile_image);
        },
        ClientPayload::MarkChatRead { chat_id } => {
            out.push(8u8);
            write_u64(&mut out, *chat_id);
        },
        ClientPayload::CallSignal { payload } => {
            out.push(9u8);
            write_bytes(&mut out, payload);
        },
    }
    proof {
        assert(out@ =~= enc_client(m@));
    }
    out
}

/// A frame that is not the encoding of any server message.
#[derive(Clone, Copy, PartialEq, Eq, Structural, Debug)]
pub struct DecodeError;

/// The kind tag of a server message.
pub open spec fn server_tag(m: ServerMessageView) -> u8 {
    match m {
        ServerMessageView::RequestResponse { .. } => 1u8,
        ServerMessageView::NewMessage { .. } => 2u8,
        ServerMessageView::UserJoined { .. } => 3u8,
        ServerMessageView::ChatReadUpdated { .. } => 4u8,
        ServerMessageView::ProfileUpdated { .. } => 5u8,
        ServerMessageView::CallSignal { .. } => 6u8,
    }
}

/// The bytes of a server message after its kind tag.
pub open spec fn enc_server_body(m: ServerMessageView) -> Seq<u8> {
    match m {
        ServerMessageView::RequestResponse { id, result } => enc_u64(id) + enc_result(result),
        ServerMessageView::NewMessage { message } => enc_message(message),
        ServerMessageView::UserJoined { chat_id, user } => enc_u64(chat_id) + enc_user(user),
        ServerMessageView::ChatReadUpdated { chat_id, user_id, ts } => enc_u64(chat_id) + enc_u64(
            user_id,
        ) + enc_u64(ts),
        ServerMessageView::ProfileUpdated { user } => enc_user(user),
        ServerMessageView::CallSignal { payload } => enc_bytes(payload),
    }
}

/// Decodes one whole inbound frame into a server message. Exactly the
/// frames produced by the encoding decode, each to the message it encodes;
/// every other byte string is a decode error, which the caller drops
/// without closing the connection.
pub fn decode_server(buf: &Vec<u8>) -> (r: Result<ServerMessage, DecodeError>)
    ensures
        r matches Ok(m) ==> server_ok(m@) && buf@ == enc_server(m@),
        forall|v: ServerMessageView|
            server_ok(v) && buf@ == #[trigger] enc_server(v) ==> (r matches Ok(m) && m@ == v),
{
    proof {
        lemma_auto_spec_u64_to_from_le_bytes();
        assert forall|v: ServerMessageView|
            server_ok(v) && buf@ == #[trigger] enc_server(v) implies buf@.len() > 0 && buf@[0]
            == server_tag(v) && prefix_at(buf@, 1, enc_server_body(v)) && buf@.len() == 1
            + enc_server_body(v).len() by {
            assert(enc_server(v) =~= seq![server_tag(v)] + enc_server_body(v));
            assert(prefix_at(buf@, 0, enc_server(v))) by {
                assert(buf@.subrange(0, buf@.len() as int) =~= buf@);
            }
            lemma_prefix_split(buf@, 0, seq![server_tag(v)], enc_server_body(v));
            assert(buf@[0] == buf@.subrange(0, 1)[0]);
        };
    }
    let (tag, p0) = match read_u8(buf, 0) {
        None => {
            return Err(DecodeError);
        },
        Some(p) => p,
    };
    proof {
        assert(buf@[0] == tag) by {
            assert(buf@.subrange(0, 1)[0] == tag);
        }
    }
    if tag == 1 {
        let (id, p1) = match read_u64(buf, p0) {
            None => {
                return Err(DecodeError);
            },
            Some(p) => p,
        };
        proof {
            assert forall|v: ServerMessageView|
                server_ok(v) && buf@ == #[trigger] enc_server(v) implies v is RequestResponse && id
                == v->RequestResponse_id && prefix_at(
                buf@,
                9,
                enc_result(v->RequestResponse_result),
            ) by {
                lemma_prefix_split(
                    buf@,
                    1,
                    enc_u64(v->RequestResponse_id),
                    enc_result(v->RequestResponse_result),
                );
                lemma_enc_u64_inj(id, v->RequestResponse_id);
            };
        }
        let (result, end) = match read_result(buf, p1) {
            None => {
                return Err(DecodeError);
            },
            Some(p) => p,
        };
        if end != buf.len() {
            return Err(DecodeError);
        }
        let m = ServerMessage::RequestResponse { id, result };
        proof {
            assert(buf@.subrange(0, end as int) =~= seq![1u8] + (enc_u64(id) + enc_result(
                view_of_result(m->RequestResponse_result),
            )));
            assert(buf@ =~= buf@.subrange(0, end as int));
            assert(buf@ == enc_server(m@));
            assert forall|v: ServerMessageView|
                server_ok(v) && buf@ == #[trigger] enc_server(v) implies m@ == v by {
                assert(m@ =~= v);
            };
        }
        Ok(m)
    } else if tag == 2 {
        let (message, end) = match read_message(buf, p0) {
            None => {
                return Err(DecodeError);
            },
            Some(p) => p,
        };
        if end != buf.len() {
            return Err(DecodeError);
        }
        let m = ServerMessage::NewMessage { message };
        proof {
            assert(buf@.subrange(0, end as int) =~= seq![2u8] + enc_message(
                m->NewMessage_message@,
            ));
            assert(buf@ =~= buf@.subrange(0, end as int));
            assert(buf@ == enc_server(m@));
            assert forall|v: ServerMessageView|
                server_ok(v) && buf@ == #[trigger] enc_server(v) implies m@ == v by {
                assert(v is NewMessage);
                assert(m@ =~= v);
            };
        }
        Ok(m)
    } else if tag == 3 {
        let (chat_id, p1) = match read_u64(buf, p0) {
            None => {
                return Err(DecodeError);
            },
            Some(p) => p,
        };
        proof {
            assert forall|v: ServerMessageView|
                server_ok(v) && buf@ == #[trigger] enc_server(v) implies v is UserJoined && chat_id
                == v->UserJoined_chat_id && prefix_at(buf@, 9, enc_user(v->UserJoined_user)) by {
                lemma_prefix_split(
                    buf@,
                    1,
                    enc_u64(v->UserJoined_chat_id),
                    enc_user(v->UserJoined_user),
                );
                lemma_enc_u64_inj(chat_id, v->UserJoined_chat_id);
            };
        }
        let (user, end) = match read_user(buf, p1) {
            None => {
                return Err(DecodeError);
            },
            Some(p) => p,
        };
        if end != buf.len() {
            return Err(DecodeError);
        }
        let m = ServerMessage::UserJoined { chat_id, user };
        proof {
            assert(buf@.subrange(0, end as int) =~= seq![3u8] + (enc_u64(chat_id) + enc_user(
                m->UserJoined_user@,
            )));
            assert(buf@ =~= buf@.subrange(0, end as int));
            assert(buf@ == enc_server(m@));
            assert forall|v: ServerMessageView|
                server_ok(v) && buf@ == #[trigger] enc_server(v) implies m@ == v by {
                assert(m@ =~= v);
            };
        }
        Ok(m)
    } else if tag == 4 {
        let (chat_id, p1) = match read_u64(buf, p0) {
            None => {
                return Err(DecodeError);
            },
            Some(p) => p,
        };
        let (user_id, p2) = match read_u64(buf, p1) {
            None => {
                return Err(DecodeError);
            },
            Some(p) => p,
        };
        let (ts, end) = match read_u64(buf, p2) {
            None => {
                return Err(DecodeError);
            },
            Some(p) => p,
        };
        if end != buf.len() {
            return Err(DecodeError);
        }
        let m = ServerMessage::ChatReadUpdated { chat_id, user_id, ts };
        proof {
            assert forall|v: ServerMessageView|
                server_ok(v) && buf@ == #[trigger] enc_server(v) implies m@ == v by {
                assert(v is ChatReadUpdated);
                lemma_prefix_split(
                    buf@,
                    1,
                    enc_u64(v->ChatReadUpdated_chat_id) + enc_u64(v->ChatReadUpdated_user_id),
                    enc_u64(v->ChatReadUpdated_ts),
                );
                lemma_prefix_split(
                    buf@,
                    1,
                    enc_u64(v->ChatReadUpdated_chat_id),
                    enc_u64(v->ChatReadUpdated_user_id),
                );
                lemma_enc_u64_inj(chat_id, v->ChatReadUpdated_chat_id);
                lemma_enc_u64_inj(user_id, v->ChatReadUpdated_user_id);
                lemma_enc_u64_inj(ts, v->ChatReadUpdated_ts);
                assert(m@ =~= v);
            };
            assert(buf@.subrange(0, end as int) =~= seq![4u8] + (enc_u64(chat_id) + enc_u64(
                user_id,
            ) + enc_u64(ts)));
            assert(buf@ =~= buf@.subrange(0, end as int));
            assert(buf@ == enc_server(m@));
        }
        Ok(m)
    } else if tag == 5 {
        let (user, end) = match read_user(buf, p0) {
            None => {
                return Err(DecodeError);
            },
            Some(p) => p,
        };
        if end != buf.len() {
            return Err(DecodeError);
        }
        let m = ServerMessage::ProfileUpdated { user };
        proof {
            assert(buf@.subrange(0, end as int) =~= seq![5u8] + enc_user(m->ProfileUpdated_user@));
            assert(buf@ =~= buf@.subrange(0, end as int));
            assert(buf@ == enc_server(m@));
            assert forall|v: ServerMessageView|
                server_ok(v) && buf@ == #[trigger] enc_server(v) implies m@ == v by {
                assert(v is ProfileUpdated);
                assert(m@ =~= v);
            };
        }
        Ok(m)
    } else if tag == 6 {
        let (payload, end) = match read_bytes(buf, p0) {
            None => {
                return Err(DecodeError);
            },
            Some(p) => p,
        };
        if end != buf.len() {
            return Err(DecodeError);
        }
        let m = ServerMessage::CallSignal { payload };
        proof {
            assert(buf@.subrange(0, end as int) =~= seq![6u8] + enc_bytes(m->CallSignal_payload@));
            assert(buf@ =~= buf@.subrange(0, end as int));
            assert(buf@ == enc_server(m@));
            assert forall|v: ServerMessageView|
                server_ok(v) && buf@ == #[trigger] enc_server(v) implies m@ == v by {
                assert(v is CallSignal);
                assert(m@ =~= v);
            };
        }
        Ok(m)
    } else {
        Err(DecodeError)
    }
}

/// Encodes a server message into its wire bytes (the server's side of the
/// codec; the engine only decodes these).
pub fn encode_server(m: &ServerMessage) -> (out: Vec<u8>)
    ensures
        out@ == enc_server(m@),
{
    let mut out: Vec<u8> = Vec::new();
    match m {
        ServerMessage::RequestResponse { id, result } => {
            out.push(1u8);
            write_u64(&mut out, *id);
            match result {
                Err(e) => {
                    out.push(0u8);
                    write_bytes(&mut out, e);
                },
                Ok(p) => {
                    out.push(1u8);
                    match p {
                        ResponsePayload::Chats { chats } => {
                            out.push(1u8);
                            write_chat_list(&mut out, chats);
                        },
                        ResponsePayload::SelfProfile { user } => {
                            out.push(2u8);
                            write_user(&mut out, user);
                        },
                        ResponsePayload::Messages { messages } => {
                            out.push(3u8);
                            write_message_list(&mut out, messages);
                        },
                        ResponsePayload::MessageSent { message } => {
                            out.push(4u8);
                            write_message(&mut out, message);
                        },
                        ResponsePayload::ChatCreated { chat } => {
                            out.push(5u8);
                            write_chat(&mut out, chat);
                        },
                        ResponsePayload::ChatJoined => {
                            out.push(6u8);
                        },
                        ResponsePayload::MarkedRead => {
                            out.push(7u8);
                        },
                        ResponsePayload::CallSignal { payload } => {
                            out.push(8u8);
                            write_bytes(&mut out, payload);
                        },
                    }
                },
            }
        },
        ServerMessage::NewMessage { message } => {
            out.push(2u8);
            write_message(&mut out, message);
        },
        ServerMessage::UserJoined { chat_id, user } => {
            out.push(3u8);
            write_u64(&mut out, *chat_id);
            write_user(&mut out, user);
        },
        ServerMessage::ChatReadUpdated { chat_id, user_id, ts } => {
            out.push(4u8);
            write_u64(&mut out, *chat_id);
            write_u64(&mut out, *user_id);
            write_u64(&mut out, *ts);
        },
        ServerMessage::ProfileUpdated { user } => {
            out.push(5u8);
            write_user(&mut out, user);
        },
        ServerMessage::CallSignal { payload } => {
            out.push(6u8);
            write_bytes(&mut out, payload);
        },
    }
    proof {
        assert(out@ =~= enc_server(m@));
    }
    out
}

} // verus!
