use chat_sync::model::{Chat, Message, User};
use chat_sync::pagination::{Paginator, ScrollMode, ScrollReadings};
use chat_sync::profile::{decode_image_data_url, encode_image_data_url, profile_update_request};
use chat_sync::protocol::ClientPayload;
use chat_sync::supervisor::{SessionEvent, SessionState, Supervisor};
use chat_sync::ui::{
    avatar_color_index, avatar_initials, chat_unread, format_chat_code, oldest_loaded,
    parse_chat_code, prepare_create_chat, prepare_send_message, sidebar_entries,
};

fn user(id: u64, name: &str, seen: u64) -> User {
    User {
        id,
        display_name: name.as_bytes().to_vec(),
        profile_image: Vec::new(),
        last_message_seen_ts: seen,
    }
}

fn msg(id: u64, chat_id: u64, ts: u64) -> Message {
    Message { id, chat_id, creator: None, content: Vec::new(), created_at: ts }
}

#[test]
fn initials_take_two_word_heads_uppercased() {
    assert_eq!(avatar_initials(&b"john doe".to_vec()), b"JD".to_vec());
    assert_eq!(avatar_initials(&b"ada".to_vec()), b"A".to_vec());
    assert_eq!(avatar_initials(&b"one two three".to_vec()), b"OT".to_vec());
    assert_eq!(avatar_initials(&b"  spaced   out  ".to_vec()), b"SO".to_vec());
    assert_eq!(avatar_initials(&b"".to_vec()), b"".to_vec());
    assert_eq!(avatar_initials(&b"9 lives".to_vec()), b"9L".to_vec());
}

#[test]
fn color_index_folds_byte_sum_mod_eight() {
    // "JD": (0 + 74) % 8 = 2, then (2 + 68) % 8 = 6.
    assert_eq!(avatar_color_index(&b"JD".to_vec()), 6);
    assert_eq!(avatar_color_index(&b"".to_vec()), 0);
    assert!(avatar_color_index(&b"ZZ".to_vec()) < 8);
}

#[test]
fn chat_code_must_be_sixteen_hex_digits() {
    assert_eq!(parse_chat_code(&b"00000000000000ff".to_vec()), Some(255));
    assert_eq!(parse_chat_code(&b"00000000000000FF".to_vec()), Some(255));
    assert_eq!(parse_chat_code(&b"ffffffffffffffff".to_vec()), Some(u64::MAX));
    assert_eq!(parse_chat_code(&b"0000000000000010".to_vec()), Some(16));
    assert_eq!(parse_chat_code(&b"123".to_vec()), None);
    assert_eq!(parse_chat_code(&b"00000000000000fg".to_vec()), None);
    assert_eq!(parse_chat_code(&b"00000000000000ff0".to_vec()), None);
    assert_eq!(parse_chat_code(&b"".to_vec()), None);
}

#[test]
fn chat_code_round_trips() {
    assert_eq!(format_chat_code(255), b"00000000000000ff".to_vec());
    assert_eq!(format_chat_code(0), b"0000000000000000".to_vec());
    assert_eq!(parse_chat_code(&format_chat_code(u64::MAX)), Some(u64::MAX));
    let id = 0x123456789abcdef0u64;
    assert_eq!(format_chat_code(id), b"123456789abcdef0".to_vec());
    assert_eq!(parse_chat_code(&format_chat_code(id)), Some(id));
}

#[test]
fn sidebar_lists_chats_with_selection() {
    let chats = vec![
        Chat {
            id: 1,
            name: b"general".to_vec(),
            users: vec![],
            messages: vec![],
            last_message_ts: 10,
        },
        Chat {
            id: 2,
            name: b"random".to_vec(),
            users: vec![],
            messages: vec![],
            last_message_ts: 5,
        },
    ];
    let rows = sidebar_entries(&chats, Some(2));
    assert_eq!(rows.len(), 2);
    assert_eq!(rows[0], (b"general".to_vec(), 1, false));
    assert_eq!(rows[1], (b"random".to_vec(), 2, true));
    let none = sidebar_entries(&chats, None);
    assert!(!none[0].2 && !none[1].2);
}

#[test]
fn empty_message_is_not_sent() {
    assert!(prepare_send_message(1, Vec::new()).is_none());
    match prepare_send_message(1, b"hello".to_vec()) {
        Some(ClientPayload::SendMessage { chat_id, content }) => {
            assert_eq!(chat_id, 1);
            assert_eq!(content, b"hello".to_vec());
        },
        other => panic!("unexpected payload: {:?}", other),
    }
}

#[test]
fn empty_chat_name_is_not_sent() {
    assert!(prepare_create_chat(Vec::new()).is_none());
    match prepare_create_chat(b"room".to_vec()) {
        Some(ClientPayload::CreateChat { name }) => assert_eq!(name, b"room".to_vec()),
        other => panic!("unexpected payload: {:?}", other),
    }
}

#[test]
fn oldest_loaded_is_the_window_head() {
    let mut c = Chat {
        id: 1,
        name: b"g".to_vec(),
        users: vec![],
        messages: vec![],
        last_message_ts: 0,
    };
    assert_eq!(oldest_loaded(&c), None);
    c.messages = vec![msg(1, 1, 100), msg(2, 1, 200)];
    assert_eq!(oldest_loaded(&c), Some(100));
}

#[test]
fn unread_compares_receipt_to_activity() {
    let c = Chat {
        id: 1,
        name: b"g".to_vec(),
        users: vec![user(10, "a", 300), user(11, "b", 100)],
        messages: vec![],
        last_message_ts: 300,
    };
    assert!(!chat_unread(&c, 10));
    assert!(chat_unread(&c, 11));
    assert!(!chat_unread(&c, 99));
}

#[test]
fn pagination_idles_away_from_top() {
    let mut p = Paginator::new();
    let plan = p.evaluate(1, Some(100), true, ScrollReadings { scroll_top: 500, content_height: 900 });
    assert!(!plan.fetch);
    assert!(!plan.mark_read);
    assert!(!plan.scroll_to_bottom);
    assert_eq!(plan.scroll_to, None);
    assert_eq!(p.mode, ScrollMode::CheckNeed);
}

#[test]
fn pagination_fetches_near_top() {
    let mut p = Paginator::new();
    let plan = p.evaluate(1, Some(100), false, ScrollReadings { scroll_top: 0, content_height: 900 });
    assert!(plan.fetch);
    assert_eq!(plan.older_than, Some(100));
    assert!(!plan.mark_read);
}

#[test]
fn pagination_marks_read_when_short_content_shows_all() {
    // Near top and bottom at once, with unread activity: mark as read and
    // still fetch.
    let mut p = Paginator::new();
    let plan = p.evaluate(1, None, true, ScrollReadings { scroll_top: 1, content_height: 1 });
    assert!(plan.mark_read);
    assert!(plan.fetch);
    assert_eq!(plan.older_than, None);
}

#[test]
fn empty_page_stops_refetching() {
    let mut p = Paginator::new();
    p.note_fetch_result(1, 0, 400);
    assert_eq!(p.mode, ScrollMode::CheckNeed);
    let plan = p.evaluate(1, None, false, ScrollReadings { scroll_top: 0, content_height: 400 });
    assert!(!plan.fetch);
    // The other chat is unaffected.
    let plan2 = p.evaluate(2, Some(5), false, ScrollReadings { scroll_top: 0, content_height: 400 });
    assert!(plan2.fetch);
}

#[test]
fn loaded_page_restores_scroll_position() {
    let mut p = Paginator::new();
    p.note_fetch_result(1, 2, 400);
    assert_eq!(p.mode, ScrollMode::GoTo { prior_height: 400 });
    let plan = p.evaluate(1, Some(50), false, ScrollReadings { scroll_top: 0, content_height: 1000 });
    assert_eq!(plan.scroll_to, Some(600));
    assert!(!plan.fetch);
    assert_eq!(p.mode, ScrollMode::CheckNeed);
}

#[test]
fn go_down_scrolls_to_bottom_once() {
    let mut p = Paginator::new();
    p.go_down();
    assert_eq!(p.mode, ScrollMode::GoDown);
    let plan = p.evaluate(1, None, false, ScrollReadings { scroll_top: 0, content_height: 400 });
    assert!(plan.scroll_to_bottom);
    assert!(!plan.fetch);
    assert_eq!(p.mode, ScrollMode::CheckNeed);
}

#[test]
fn data_url_round_trip() {
    let data = b"hello".to_vec();
    let url = encode_image_data_url(&data);
    assert_eq!(url, b"data:image;base64,aGVsbG8=".to_vec());
    assert_eq!(decode_image_data_url(&url), Some(data));
}

#[test]
fn data_url_requires_prefix_and_valid_body() {
    assert_eq!(decode_image_data_url(&b"aGVsbG8=".to_vec()), None);
    assert_eq!(decode_image_data_url(&b"data:image;base64,!!!".to_vec()), None);
    assert_eq!(decode_image_data_url(&b"short".to_vec()), None);
    let empty = encode_image_data_url(&Vec::new());
    assert_eq!(empty, b"data:image;base64,".to_vec());
    assert_eq!(decode_image_data_url(&empty), Some(Vec::new()));
}

#[test]
fn update_request_carries_name_and_optional_image() {
    let p = profile_update_request(b"ada".to_vec(), Some(b"http://img".to_vec()));
    match p {
        ClientPayload::UpdateProfile { display_name, profile_image } => {
            assert_eq!(display_name, Some(b"ada".to_vec()));
            assert_eq!(profile_image, Some(b"http://img".to_vec()));
        },
        other => panic!("unexpected payload: {:?}", other),
    }
    let q = profile_update_request(b"ada".to_vec(), None);
    match q {
        ClientPayload::UpdateProfile { profile_image, .. } => assert_eq!(profile_image, None),
        other => panic!("unexpected payload: {:?}", other),
    }
}

#[test]
fn supervisor_walks_the_lifecycle() {
    let mut s = Supervisor::new();
    assert_eq!(s.state, SessionState::Disconnected);
    assert!(!s.is_authenticated());
    // Without a token, nothing moves.
    s.step(SessionEvent::TokenAbsent);
    assert_eq!(s.state, SessionState::Disconnected);
    let a = s.step(SessionEvent::TokenPresent);
    assert!(a.connect);
    assert_eq!(s.state, SessionState::Connecting);
    let b = s.step(SessionEvent::HandshakeOk);
    assert!(b.bootstrap);
    assert!(s.is_authenticated());
    let c = s.step(SessionEvent::ProbeFailed { reason: b"timeout".to_vec() });
    assert!(c.start_backoff);
    assert_eq!(s.state, SessionState::Degraded { reason: b"timeout".to_vec() });
    // A decode problem is not a lifecycle event; only BackoffElapsed moves
    // the machine on.
    s.step(SessionEvent::TokenPresent);
    assert_eq!(s.state, SessionState::Degraded { reason: b"timeout".to_vec() });
    s.step(SessionEvent::BackoffElapsed);
    assert_eq!(s.state, SessionState::Disconnected);
}

#[test]
fn handshake_failure_degrades_with_reason() {
    let mut s = Supervisor::new();
    s.step(SessionEvent::TokenPresent);
    let a = s.step(SessionEvent::HandshakeFailed { reason: b"refused".to_vec() });
    assert!(a.start_backoff);
    assert!(!a.bootstrap);
    assert_eq!(s.state, SessionState::Degraded { reason: b"refused".to_vec() });
}
