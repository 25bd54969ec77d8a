use chat_sync::codec::{decode_server, encode_client, encode_server};
use chat_sync::model::{Chat, Message, User};
use chat_sync::protocol::{ClientMessage, ClientPayload, ResponsePayload, ServerMessage};

fn user(id: u64, name: &str, seen: u64) -> User {
    User {
        id,
        display_name: name.as_bytes().to_vec(),
        profile_image: b"http://example/img.png".to_vec(),
        last_message_seen_ts: seen,
    }
}

fn msg(id: u64, chat_id: u64, creator: Option<u64>, text: &str, ts: u64) -> Message {
    Message { id, chat_id, creator, content: text.as_bytes().to_vec(), created_at: ts }
}

fn rich_chat() -> Chat {
    Chat {
        id: 3,
        name: b"general".to_vec(),
        users: vec![user(10, "ada", 120), user(11, "grace", 80)],
        messages: vec![msg(100, 3, Some(10), "hi", 100), msg(101, 3, None, "joined", 150)],
        last_message_ts: 150,
    }
}

fn round_trip(m: ServerMessage) {
    let bytes = encode_server(&m);
    let back = decode_server(&bytes).expect("the encoding must decode");
    assert_eq!(back, m);
}

#[test]
fn server_round_trip_response_ok_variants() {
    round_trip(ServerMessage::RequestResponse {
        id: 7,
        result: Ok(ResponsePayload::Chats { chats: vec![rich_chat()] }),
    });
    round_trip(ServerMessage::RequestResponse {
        id: 8,
        result: Ok(ResponsePayload::SelfProfile { user: user(10, "ada", 0) }),
    });
    round_trip(ServerMessage::RequestResponse {
        id: 9,
        result: Ok(ResponsePayload::Messages {
            messages: vec![msg(1, 3, Some(10), "a", 5), msg(2, 3, None, "b", 6)],
        }),
    });
    round_trip(ServerMessage::RequestResponse {
        id: 10,
        result: Ok(ResponsePayload::MessageSent { message: msg(4, 3, Some(10), "c", 9) }),
    });
    round_trip(ServerMessage::RequestResponse {
        id: 11,
        result: Ok(ResponsePayload::ChatCreated { chat: rich_chat() }),
    });
    round_trip(ServerMessage::RequestResponse {
        id: 12,
        result: Ok(ResponsePayload::ChatJoined),
    });
    round_trip(ServerMessage::RequestResponse {
        id: 13,
        result: Ok(ResponsePayload::MarkedRead),
    });
    round_trip(ServerMessage::RequestResponse {
        id: 14,
        result: Ok(ResponsePayload::CallSignal { payload: b"{\"sdp\":1}".to_vec() }),
    });
}

#[test]
fn server_round_trip_error_and_pushes() {
    round_trip(ServerMessage::RequestResponse { id: 2, result: Err(b"denied".to_vec()) });
    round_trip(ServerMessage::NewMessage { message: msg(5, 3, Some(11), "hello", 42) });
    round_trip(ServerMessage::UserJoined { chat_id: 3, user: user(12, "joan", 0) });
    round_trip(ServerMessage::ChatReadUpdated { chat_id: 3, user_id: 10, ts: 77 });
    round_trip(ServerMessage::ProfileUpdated { user: user(10, "ada", 5) });
    round_trip(ServerMessage::CallSignal { payload: vec![0, 255, 128, 7] });
}

#[test]
fn server_round_trip_empty_edges() {
    // Empty chat list, empty windows, empty texts.
    round_trip(ServerMessage::RequestResponse {
        id: 0,
        result: Ok(ResponsePayload::Chats { chats: vec![] }),
    });
    round_trip(ServerMessage::RequestResponse {
        id: 1,
        result: Ok(ResponsePayload::Messages { messages: vec![] }),
    });
    round_trip(ServerMessage::RequestResponse { id: 2, result: Err(Vec::new()) });
    round_trip(ServerMessage::NewMessage { message: msg(5, 3, None, "", 0) });
    round_trip(ServerMessage::CallSignal { payload: Vec::new() });
    round_trip(ServerMessage::RequestResponse {
        id: 3,
        result: Ok(ResponsePayload::Chats {
            chats: vec![Chat {
                id: 9,
                name: Vec::new(),
                users: vec![],
                messages: vec![],
                last_message_ts: 0,
            }],
        }),
    });
}

#[test]
fn client_encoding_is_the_documented_bytes() {
    // Envelope: id as eight little-endian bytes, then the payload tag.
    let m = ClientMessage { id: 7, payload: ClientPayload::GetChats };
    assert_eq!(encode_client(&m), vec![7, 0, 0, 0, 0, 0, 0, 0, 1]);
    let m2 = ClientMessage {
        id: 258,
        payload: ClientPayload::SendMessage { chat_id: 3, content: b"hi".to_vec() },
    };
    assert_eq!(
        encode_client(&m2),
        vec![
            2, 1, 0, 0, 0, 0, 0, 0, // id 258
            4, // send-message tag
            3, 0, 0, 0, 0, 0, 0, 0, // chat id 3
            2, 0, 0, 0, 0, 0, 0, 0, // body length 2
            104, 105, // "hi"
        ]
    );
}

#[test]
fn client_encoding_covers_every_request_kind() {
    let payloads = vec![
        ClientPayload::GetChats,
        ClientPayload::GetSelf,
        ClientPayload::GetMessages { chat_id: 1, older_than: Some(100) },
        ClientPayload::GetMessages { chat_id: 1, older_than: None },
        ClientPayload::SendMessage { chat_id: 1, content: b"x".to_vec() },
        ClientPayload::CreateChat { name: b"room".to_vec() },
        ClientPayload::JoinChat { chat_id: 9 },
        ClientPayload::UpdateProfile {
            display_name: Some(b"ada".to_vec()),
            profile_image: None,
        },
        ClientPayload::MarkChatRead { chat_id: 1 },
        ClientPayload::CallSignal { payload: b"bye".to_vec() },
    ];
    let mut seen = Vec::new();
    for (i, p) in payloads.into_iter().enumerate() {
        let bytes = encode_client(&ClientMessage { id: i as u64, payload: p });
        assert!(bytes.len() >= 9);
        assert!(!seen.contains(&bytes));
        seen.push(bytes);
    }
}

#[test]
fn server_encoding_is_the_documented_bytes() {
    let bytes = encode_server(&ServerMessage::ChatReadUpdated { chat_id: 3, user_id: 10, ts: 77 });
    assert_eq!(
        bytes,
        vec![
            4, // read-receipt tag
            3, 0, 0, 0, 0, 0, 0, 0, // chat id
            10, 0, 0, 0, 0, 0, 0, 0, // user id
            77, 0, 0, 0, 0, 0, 0, 0, // timestamp
        ]
    );
}

#[test]
fn garbage_is_rejected() {
    assert!(decode_server(&Vec::new()).is_err());
    assert!(decode_server(&vec![0]).is_err());
    assert!(decode_server(&vec![9, 1, 2, 3]).is_err());
    // A claimed huge list is rejected rather than trusted.
    let mut huge = vec![1u8]; // response tag
    huge.extend_from_slice(&7u64.to_le_bytes()); // id
    huge.push(1); // ok
    huge.push(1); // chats
    huge.extend_from_slice(&u64::MAX.to_le_bytes()); // absurd count
    assert!(decode_server(&huge).is_err());
}

#[test]
fn truncated_and_padded_frames_are_rejected() {
    let bytes = encode_server(&ServerMessage::ChatReadUpdated { chat_id: 3, user_id: 10, ts: 77 });
    let mut cut = bytes.clone();
    cut.pop();
    assert!(decode_server(&cut).is_err());
    let mut padded = bytes.clone();
    padded.push(0);
    assert!(decode_server(&padded).is_err());
    assert!(decode_server(&bytes).is_ok());
}
