use chat_sync::codec::encode_server;
use chat_sync::correlator::{Correlator, IssueError};
use chat_sync::engine::{join_follow_up, Delivered, Engine};
use chat_sync::model::{Chat, Message, User};
use chat_sync::protocol::{ClientPayload, ResponsePayload, ServerMessage};
use chat_sync::supervisor::SessionEvent;

fn user(id: u64, name: &str, seen: u64) -> User {
    User {
        id,
        display_name: name.as_bytes().to_vec(),
        profile_image: Vec::new(),
        last_message_seen_ts: seen,
    }
}

fn msg(id: u64, chat_id: u64, creator: Option<u64>, text: &str, ts: u64) -> Message {
    Message { id, chat_id, creator, content: text.as_bytes().to_vec(), created_at: ts }
}

fn chat(id: u64, name: &str, users: Vec<User>, messages: Vec<Message>, last_ts: u64) -> Chat {
    Chat { id, name: name.as_bytes().to_vec(), users, messages, last_message_ts: last_ts }
}

fn general() -> Chat {
    chat(
        1,
        "general",
        vec![user(10, "a", 0), user(11, "b", 0)],
        vec![msg(100, 1, Some(10), "m1", 100), msg(101, 1, Some(11), "m2", 200), msg(
            102,
            1,
            Some(10),
            "m3",
            300,
        )],
        300,
    )
}

/// Connects and authenticates a fresh engine; returns it with the two
/// bootstrap frames it asked to send.
fn authed_engine() -> (Engine, Vec<Vec<u8>>) {
    let mut e = Engine::new();
    let o1 = e.on_lifecycle(SessionEvent::TokenPresent);
    assert!(o1.connect);
    assert!(o1.frames.is_empty());
    let o2 = e.on_lifecycle(SessionEvent::HandshakeOk);
    (e, o2.frames)
}

fn respond(e: &mut Engine, id: u64, payload: ResponsePayload) -> chat_sync::engine::FrameOutcome {
    let frame = encode_server(&ServerMessage::RequestResponse { id, result: Ok(payload) });
    e.handle_frame(&frame)
}

#[test]
fn issue_while_disconnected_fails_fast() {
    // Sending "hello" while disconnected is rejected immediately with a
    // not-connected error; nothing is queued.
    let mut e = Engine::new();
    let r = e.issue(ClientPayload::SendMessage { chat_id: 1, content: b"hello".to_vec() });
    assert_eq!(r.unwrap_err(), IssueError::NotConnected);
    assert_eq!(e.correlator.pending.len(), 0);
}

#[test]
fn correlator_rejects_without_connection() {
    let mut c = Correlator::new();
    let r = c.issue(ClientPayload::GetChats, false);
    assert_eq!(r.unwrap_err(), IssueError::NotConnected);
    assert_eq!(c.pending.len(), 0);
    assert_eq!(c.next_id, 0);
}

#[test]
fn not_connected_error_text() {
    assert_eq!(IssueError::NotConnected.describe(), "not connected");
}

#[test]
fn bootstrap_issued_exactly_once_per_reconnect() {
    // One bootstrap (two frames: chat list, own profile) per completed
    // handshake, and none for any other lifecycle event.
    let mut e = Engine::new();
    assert!(e.on_lifecycle(SessionEvent::TokenPresent).frames.is_empty());
    let first = e.on_lifecycle(SessionEvent::HandshakeOk);
    assert_eq!(first.frames.len(), 2);
    assert!(e.on_lifecycle(SessionEvent::TokenPresent).frames.is_empty());
    let drop = e.on_lifecycle(SessionEvent::SocketClosed { reason: b"gone".to_vec() });
    assert!(drop.start_backoff);
    assert!(drop.frames.is_empty());
    assert!(e.on_lifecycle(SessionEvent::BackoffElapsed).frames.is_empty());
    assert!(e.on_lifecycle(SessionEvent::TokenPresent).frames.is_empty());
    let second = e.on_lifecycle(SessionEvent::HandshakeOk);
    assert_eq!(second.frames.len(), 2);
}

#[test]
fn reconnect_bootstrap_replaces_chat_list() {
    let (mut e, _frames) = authed_engine();
    respond(&mut e, 0, ResponsePayload::Chats { chats: vec![general()] });
    assert_eq!(e.cache.chats.len(), 1);
    assert_eq!(e.cache.chats[0].id, 1);
    // The connection drops and comes back; the new snapshot replaces, not
    // merges.
    e.on_lifecycle(SessionEvent::SocketClosed { reason: Vec::new() });
    e.on_lifecycle(SessionEvent::BackoffElapsed);
    e.on_lifecycle(SessionEvent::TokenPresent);
    let boot = e.on_lifecycle(SessionEvent::HandshakeOk);
    assert_eq!(boot.frames.len(), 2);
    respond(&mut e, 0, ResponsePayload::Chats { chats: vec![chat(2, "fresh", vec![], vec![], 9)] });
    assert_eq!(e.cache.chats.len(), 1);
    assert_eq!(e.cache.chats[0].id, 2);
}

#[test]
fn response_resolves_only_once() {
    // The same response frame twice: the first resolves the pending
    // request, the second finds nothing to complete and changes nothing.
    let (mut e, _frames) = authed_engine();
    let _ = e.issue(ClientPayload::MarkChatRead { chat_id: 1 }).unwrap();
    let frame = encode_server(&ServerMessage::RequestResponse {
        id: 2,
        result: Ok(ResponsePayload::MarkedRead),
    });
    let first = e.handle_frame(&frame);
    let c = first.completion.unwrap();
    assert_eq!(c.id, 2);
    assert_eq!(c.result.unwrap(), Delivered::MarkedRead);
    let second = e.handle_frame(&frame);
    assert!(second.completion.is_none());
    assert!(!second.decode_error);
}

#[test]
fn history_page_merges_with_pending_context() {
    let (mut e, _frames) = authed_engine();
    respond(&mut e, 0, ResponsePayload::Chats { chats: vec![general()] });
    let _ = e.issue(ClientPayload::GetMessages { chat_id: 1, older_than: Some(100) }).unwrap();
    let out = respond(
        &mut e,
        2,
        ResponsePayload::Messages {
            messages: vec![msg(90, 1, Some(10), "o1", 50), msg(91, 1, Some(11), "o2", 80)],
        },
    );
    let c = out.completion.unwrap();
    assert_eq!(c.result.unwrap(), Delivered::Messages { target: Some(1), count: 2 });
    let ts: Vec<u64> = e.cache.chats[0].messages.iter().map(|m| m.created_at).collect();
    assert_eq!(ts, vec![50, 80, 100, 200, 300]);
    assert_eq!(e.cache.chats[0].last_message_ts, 300);
}

#[test]
fn unsolicited_history_page_is_dropped() {
    let (mut e, _frames) = authed_engine();
    respond(&mut e, 0, ResponsePayload::Chats { chats: vec![general()] });
    // No pending request under id 77: the page has no target chat.
    let out = respond(&mut e, 77, ResponsePayload::Messages {
        messages: vec![msg(90, 1, None, "o", 50)],
    });
    assert!(out.completion.is_none());
    assert_eq!(e.cache.chats[0].messages.len(), 3);
}

#[test]
fn push_echo_of_own_message_is_dropped() {
    let (mut e, _frames) = authed_engine();
    e.set_identity(Some(10));
    respond(&mut e, 0, ResponsePayload::Chats { chats: vec![general()] });
    let echo = encode_server(&ServerMessage::NewMessage {
        message: msg(103, 1, Some(10), "mine", 400),
    });
    e.handle_frame(&echo);
    assert_eq!(e.cache.chats[0].messages.len(), 3);
    // The same push from another user is merged.
    let other = encode_server(&ServerMessage::NewMessage {
        message: msg(104, 1, Some(11), "theirs", 400),
    });
    e.handle_frame(&other);
    assert_eq!(e.cache.chats[0].messages.len(), 4);
    assert_eq!(e.cache.chats[0].last_message_ts, 400);
}

#[test]
fn sent_message_response_is_merged() {
    let (mut e, _frames) = authed_engine();
    e.set_identity(Some(10));
    respond(&mut e, 0, ResponsePayload::Chats { chats: vec![general()] });
    let _ = e.issue(ClientPayload::SendMessage { chat_id: 1, content: b"hello".to_vec() }).unwrap();
    // The response path merges even the user's own message: it is the
    // acknowledgement, not an echo.
    let out = respond(&mut e, 2, ResponsePayload::MessageSent {
        message: msg(103, 1, Some(10), "hello", 400),
    });
    assert_eq!(out.completion.unwrap().result.unwrap(), Delivered::MessageSent);
    assert_eq!(e.cache.chats[0].messages.len(), 4);
}

#[test]
fn server_error_reaches_only_the_caller() {
    let (mut e, _frames) = authed_engine();
    respond(&mut e, 0, ResponsePayload::Chats { chats: vec![general()] });
    let _ = e.issue(ClientPayload::JoinChat { chat_id: 5 }).unwrap();
    let frame = encode_server(&ServerMessage::RequestResponse {
        id: 2,
        result: Err(b"no such chat".to_vec()),
    });
    let out = e.handle_frame(&frame);
    let c = out.completion.unwrap();
    assert_eq!(c.id, 2);
    assert_eq!(c.result.unwrap_err(), b"no such chat".to_vec());
    // The cache is untouched by an application error.
    assert_eq!(e.cache.chats.len(), 1);
    assert_eq!(e.cache.chats[0].messages.len(), 3);
}

#[test]
fn created_chat_is_inserted_and_reported() {
    let (mut e, _frames) = authed_engine();
    respond(&mut e, 0, ResponsePayload::Chats { chats: vec![chat(1, "one", vec![], vec![], 500)] });
    let _ = e.issue(ClientPayload::CreateChat { name: b"new".to_vec() }).unwrap();
    let out = respond(&mut e, 2, ResponsePayload::ChatCreated {
        chat: chat(7, "new", vec![], vec![], 600),
    });
    assert_eq!(out.completion.unwrap().result.unwrap(), Delivered::ChatCreated { chat_id: 7 });
    let ids: Vec<u64> = e.cache.chats.iter().map(|c| c.id).collect();
    assert_eq!(ids, vec![7, 1]);
}

#[test]
fn successful_join_owes_a_chat_list_refresh() {
    let (mut e, _frames) = authed_engine();
    let _ = e.issue(ClientPayload::JoinChat { chat_id: 9 }).unwrap();
    let out = respond(&mut e, 2, ResponsePayload::ChatJoined);
    let c = out.completion.unwrap();
    assert_eq!(c.result, Ok(Delivered::ChatJoined));
    // The join decision: refresh the chat list, and only then.
    assert_eq!(join_follow_up(&c.result), Some(ClientPayload::GetChats));
    assert_eq!(join_follow_up(&Ok(Delivered::MarkedRead)), None);
    assert_eq!(join_follow_up(&Err(b"no such chat".to_vec())), None);
    let frame = e.issue(join_follow_up(&c.result).unwrap()).unwrap();
    assert!(!frame.is_empty());
    respond(&mut e, 3, ResponsePayload::Chats { chats: vec![general(), chat(9, "joined", vec![], vec![], 0)] });
    assert_eq!(e.cache.chats.len(), 2);
}

#[test]
fn push_with_old_timestamp_demotes_the_chat() {
    let (mut e, _frames) = authed_engine();
    respond(&mut e, 0, ResponsePayload::Chats { chats: vec![
        general(),
        chat(2, "quiet", vec![], vec![], 250),
    ] });
    // A push whose message is older than the chat's cached activity sinks
    // the chat below the one at 250.
    let push = encode_server(&ServerMessage::NewMessage { message: msg(103, 1, None, "late", 120) });
    e.handle_frame(&push);
    let ids: Vec<u64> = e.cache.chats.iter().map(|c| c.id).collect();
    assert_eq!(ids, vec![2, 1]);
    assert_eq!(e.cache.chats[1].last_message_ts, 120);
}

#[test]
fn call_signal_is_routed_verbatim() {
    let (mut e, _frames) = authed_engine();
    // Push path.
    let push = encode_server(&ServerMessage::CallSignal { payload: b"sdp-offer".to_vec() });
    let out = e.handle_frame(&push);
    assert_eq!(out.call_signal.unwrap(), b"sdp-offer".to_vec());
    // Response path.
    let _ = e.issue(ClientPayload::CallSignal { payload: b"join".to_vec() }).unwrap();
    let out2 = respond(&mut e, 2, ResponsePayload::CallSignal { payload: b"answer".to_vec() });
    assert_eq!(out2.completion.unwrap().result.unwrap(), Delivered::CallSignal);
    assert_eq!(out2.call_signal.unwrap(), b"answer".to_vec());
}

#[test]
fn profile_updates_replace_me() {
    let (mut e, _frames) = authed_engine();
    respond(&mut e, 1, ResponsePayload::SelfProfile { user: user(10, "me", 0) });
    assert_eq!(e.cache.me.as_ref().unwrap().display_name, b"me".to_vec());
    let push = encode_server(&ServerMessage::ProfileUpdated { user: user(10, "renamed", 0) });
    e.handle_frame(&push);
    assert_eq!(e.cache.me.as_ref().unwrap().display_name, b"renamed".to_vec());
}

#[test]
fn read_receipt_push_is_last_write_wins() {
    let (mut e, _frames) = authed_engine();
    respond(&mut e, 0, ResponsePayload::Chats { chats: vec![general()] });
    let f1 = encode_server(&ServerMessage::ChatReadUpdated { chat_id: 1, user_id: 10, ts: 10 });
    let f2 = encode_server(&ServerMessage::ChatReadUpdated { chat_id: 1, user_id: 10, ts: 5 });
    e.handle_frame(&f1);
    e.handle_frame(&f2);
    assert_eq!(e.cache.chats[0].users[0].last_message_seen_ts, 5);
}

#[test]
fn malformed_frame_changes_nothing() {
    let (mut e, _frames) = authed_engine();
    respond(&mut e, 0, ResponsePayload::Chats { chats: vec![general()] });
    let out = e.handle_frame(&vec![0xffu8, 0x01, 0x02]);
    assert!(out.decode_error);
    assert!(out.completion.is_none());
    assert_eq!(e.cache.chats.len(), 1);
    assert_eq!(e.cache.chats[0].messages.len(), 3);
    // The connection is still authenticated and usable.
    assert!(e.supervisor.is_authenticated());
    assert!(e.issue(ClientPayload::GetChats).is_ok());
}

#[test]
fn pending_requests_are_dropped_on_disconnect() {
    let (mut e, _frames) = authed_engine();
    let _ = e.issue(ClientPayload::MarkChatRead { chat_id: 1 }).unwrap();
    assert_eq!(e.correlator.pending.len(), 3);
    e.on_lifecycle(SessionEvent::ProbeFailed { reason: b"timeout".to_vec() });
    assert_eq!(e.correlator.pending.len(), 0);
    // The old response arriving late on the next connection resolves
    // nothing.
    e.on_lifecycle(SessionEvent::BackoffElapsed);
    e.on_lifecycle(SessionEvent::TokenPresent);
    e.on_lifecycle(SessionEvent::HandshakeOk);
    let stale = encode_server(&ServerMessage::RequestResponse {
        id: 9,
        result: Ok(ResponsePayload::MarkedRead),
    });
    let out = e.handle_frame(&stale);
    assert!(out.completion.is_none());
}
