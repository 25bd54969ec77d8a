//! Typed messages exchanged with the chat backend.
//!
//! A client message is an envelope `{id, payload}` whose correlation id is
//! unique per connection; the backend answers with a response envelope
//! carrying the same id, or pushes unsolicited events. Call-signaling
//! payloads are routed verbatim and never interpreted.

use vstd::prelude::*;

use crate::model::{
    views_of_chats, views_of_messages, Chat, ChatView, Message, MessageView, User, UserView,
};

verus! {

/// Payload of one client request.
#[derive(Debug, PartialEq, Eq)]
pub enum ClientPayload {
    /// Bootstrap: fetch the authoritative chat list.
    GetChats,
    /// Bootstrap: fetch the authenticated user's own profile.
    GetSelf,
    /// Fetch a page of messages older than the given creation time
    /// (or the newest page when `older_than` is `None`).
    GetMessages { chat_id: u64, older_than: Option<u64> },
    /// Send a message to a chat.
    SendMessage { chat_id: u64, content: Vec<u8> },
    /// Create a chat with the given display name.
    CreateChat { name: Vec<u8> },
    /// Join an existing chat by its code.
    JoinChat { chat_id: u64 },
    /// Update the own profile; absent fields keep their value.
    UpdateProfile { display_name: Option<Vec<u8>>, profile_image: Option<Vec<u8>> },
    /// Mark a chat as read up to its newest message.
    MarkChatRead { chat_id: u64 },
    /// Opaque call-signaling payload, routed verbatim.
    CallSignal { payload: Vec<u8> },
}

/// Mathematical view of a [`ClientPayload`].
#[verifier::ext_equal]
pub enum ClientPayloadView {
    GetChats,
    GetSelf,
    GetMessages { chat_id: u64, older_than: Option<u64> },
    SendMessage { chat_id: u64, content: Seq<u8> },
    CreateChat { name: Seq<u8> },
    JoinChat { chat_id: u64 },
    UpdateProfile { display_name: Option<Seq<u8>>, profile_image: Option<Seq<u8>> },
    MarkChatRead { chat_id: u64 },
    CallSignal { payload: Seq<u8> },
}

/// View of an optional byte string.
pub open spec fn view_of_opt_bytes(b: Option<Vec<u8>>) -> Option<Seq<u8>> {
    match b {
        Some(v) => Some(v@),
        None => None,
    }
}

impl View for ClientPayload {
    type V = ClientPayloadView;

    open spec fn view(&self) -> ClientPayloadView {
        match self {
            ClientPayload::GetChats => ClientPayloadView::GetChats,
            ClientPayload::GetSelf => ClientPayloadView::GetSelf,
            ClientPayload::GetMessages { chat_id, older_than } => ClientPayloadView::GetMessages {
                chat_id: *chat_id,
                older_than: *older_than,
            },
            ClientPayload::SendMessage { chat_id, content } => ClientPayloadView::SendMessage {
                chat_id: *chat_id,
                content: content@,
            },
            ClientPayload::CreateChat { name } => ClientPayloadView::CreateChat { name: name@ },
            ClientPayload::JoinChat { chat_id } => ClientPayloadView::JoinChat {
                chat_id: *chat_id,
            },
            ClientPayload::UpdateProfile { display_name, profile_image } => {
                ClientPayloadView::UpdateProfile {
                    display_name: view_of_opt_bytes(*display_name),
                    profile_image: view_of_opt_bytes(*profile_image),
                }
            },
            ClientPayload::MarkChatRead { chat_id } => ClientPayloadView::MarkChatRead {
                chat_id: *chat_id,
            },
            ClientPayload::CallSignal { payload } => ClientPayloadView::CallSignal {
                payload: payload@,
            },
        }
    }
}

/// One outgoing request envelope: a correlation id and the payload.
#[derive(Debug, PartialEq, Eq)]
pub struct ClientMessage {
    pub id: u64,
    pub payload: ClientPayload,
}

/// Mathematical view of a [`ClientMessage`].
#[verifier::ext_equal]
pub struct ClientMessageView {
    pub id: u64,
    pub payload: ClientPayloadView,
}

impl View for ClientMessage {
    type V = ClientMessageView;

    open spec fn view(&self) -> ClientMessageView {
        ClientMessageView { id: self.id, payload: self.payload@ }
    }
}

/// Payload of a successful response.
#[derive(Debug, PartialEq, Eq)]
pub enum ResponsePayload {
    /// The authoritative chat list.
    Chats { chats: Vec<Chat> },
    /// The authenticated user's own profile.
    SelfProfile { user: User },
    /// A page of history, ascending by creation time.
    Messages { messages: Vec<Message> },
    /// Echo of a message the client sent.
    MessageSent { message: Message },
    /// The chat that a create request produced.
    ChatCreated { chat: Chat },
    /// A join request succeeded.
    ChatJoined,
    /// A mark-as-read request succeeded.
    MarkedRead,
    /// Opaque call-signaling payload, routed verbatim.
    CallSignal { payload: Vec<u8> },
}

/// Mathematical view of a [`ResponsePayload`].
#[verifier::ext_equal]
pub enum ResponsePayloadView {
    Chats { chats: Seq<ChatView> },
    SelfProfile { user: UserView },
    Messages { messages: Seq<MessageView> },
    MessageSent { message: MessageView },
    ChatCreated { chat: ChatView },
    ChatJoined,
    MarkedRead,
    CallSignal { payload: Seq<u8> },
}

impl View for ResponsePayload {
    type V = ResponsePayloadView;

    open spec fn view(&self) -> ResponsePayloadView {
        match self {
            ResponsePayload::Chats { chats } => ResponsePayloadView::Chats {
                chats: views_of_chats(chats@),
            },
            ResponsePayload::SelfProfile { user } => ResponsePayloadView::SelfProfile {
                user: user@,
            },
            ResponsePayload::Messages { messages } => ResponsePayloadView::Messages {
                messages: views_of_messages(messages@),
            },
            ResponsePayload::MessageSent { message } => ResponsePayloadView::MessageSent {
                message: message@,
            },
            ResponsePayload::ChatCreated { chat } => ResponsePayloadView::ChatCreated {
                chat: chat@,
            },
            ResponsePayload::ChatJoined => ResponsePayloadView::ChatJoined,
            ResponsePayload::MarkedRead => ResponsePayloadView::MarkedRead,
            ResponsePayload::CallSignal { payload } => ResponsePayloadView::CallSignal {
                payload: payload@,
            },
        }
    }
}

/// One inbound server message: either the response to a request or an
/// unsolicited push event.
#[derive(Debug, PartialEq, Eq)]
pub enum ServerMessage {
    /// Response to the request with the same correlation id; the error
    /// carries the backend's message text.
    RequestResponse { id: u64, result: Result<ResponsePayload, Vec<u8>> },
    /// Push: a message created by some user.
    NewMessage { message: Message },
    /// Push: a user joined a chat.
    UserJoined { chat_id: u64, user: User },
    /// Push: a participant's read receipt moved.
    ChatReadUpdated { chat_id: u64, user_id: u64, ts: u64 },
    /// Push: the own profile changed.
    ProfileUpdated { user: User },
    /// Push: opaque call-signaling payload, routed verbatim.
    CallSignal { payload: Vec<u8> },
}

/// Mathematical view of a [`ServerMessage`].
#[verifier::ext_equal]
pub enum ServerMessageView {
    RequestResponse { id: u64, result: Result<ResponsePayloadView, Seq<u8>> },
    NewMessage { message: MessageView },
    UserJoined { chat_id: u64, user: UserView },
    ChatReadUpdated { chat_id: u64, user_id: u64, ts: u64 },
    ProfileUpdated { user: UserView },
    CallSignal { payload: Seq<u8> },
}

impl View for ServerMessage {
    type V = ServerMessageView;

    open spec fn view(&self) -> ServerMessageView {
        match self {
            ServerMessage::RequestResponse { id, result } => ServerMessageView::RequestResponse {
                id: *id,
                result: match result {
                    Ok(p) => Ok(p@),
                    Err(e) => Err(e@),
                },
            },
            ServerMessage::NewMessage { message } => ServerMessageView::NewMessage {
                message: message@,
            },
            ServerMessage::UserJoined { chat_id, user } => ServerMessageView::UserJoined {
                chat_id: *chat_id,
                user: user@,
            },
            ServerMessage::ChatReadUpdated { chat_id, user_id, ts } => {
                ServerMessageView::ChatReadUpdated {
                    chat_id: *chat_id,
                    user_id: *user_id,
                    ts: *ts,
                }
            },
            ServerMessage::ProfileUpdated { user } => ServerMessageView::ProfileUpdated {
                user: user@,
            },
            ServerMessage::CallSignal { payload } => ServerMessageView::CallSignal {
                payload: payload@,
            },
        }
    }
}

} // verus!
