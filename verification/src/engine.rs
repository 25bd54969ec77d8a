//! The synchronization engine: one object that owns the connection state,
//! the pending-request table and the cache, and services the three event
//! sources of the client — application requests, inbound frames, and
//! transport lifecycle events.
//!
//! The engine never performs input or output itself. Requests come back as
//! encoded frames for the caller to send; inbound frames are handed in as
//! bytes; lifecycle events report what the caller owes (connect, arm the
//! backoff timer, send the bootstrap frames). A malformed frame changes
//! nothing and is merely reported, so no inbound bytes can ever take the
//! connection down.

use vstd::prelude::*;

use crate::cache::{
    chat_inserted, new_message_applied, new_message_dropped, prepended, with_read_receipt,
    with_user, Cache, CacheView,
};
use crate::codec::{decode_server, enc_client, enc_server, encode_client, server_ok};
use crate::correlator::{
    first_pending_at, no_pending, Correlator, CorrelatorView, IssueError, PendingRequestView,
};
use crate::model::{chat_absent, first_chat_at, has_user};
use crate::protocol::{
    ClientMessage, ClientMessageView, ClientPayload, ClientPayloadView, ResponsePayloadView,
    ServerMessage, ServerMessageView,
};
use crate::supervisor::{
    authenticates_on, bootstraps_on, connects_on, degrades_on, step_spec, SessionEvent, Supervisor,
};

verus! {

/// What a completed request delivered, in summary form; bulk payloads
/// (chat lists, history pages, profiles) are merged into the cache rather
/// than handed back, and the caller re-reads the cache.
#[derive(Clone, Copy, PartialEq, Eq, Structural, Debug)]
pub enum Delivered {
    /// The chat list was replaced by the response.
    Chats,
    /// The own profile was replaced by the response.
    SelfProfile,
    /// A history page arrived; `target` names the chat it was spliced
    /// into, or is `None` when no pending history request matched, in
    /// which case the page was dropped. `count` is the page size (zero
    /// means the history is exhausted).
    Messages { target: Option<u64>, count: usize },
    /// The sent message was acknowledged and merged.
    MessageSent,
    /// The created chat was inserted; `chat_id` identifies it.
    ChatCreated { chat_id: u64 },
    /// The join request succeeded; [`join_follow_up`] answers it with a
    /// chat-list refresh.
    ChatJoined,
    /// The mark-as-read request succeeded.
    MarkedRead,
    /// A call-signaling response arrived; its payload is routed separately.
    CallSignal,
}

/// A completion owed to the caller that issued the request.
#[derive(Debug, PartialEq, Eq)]
pub struct Completion {
    /// Correlation id of the request this answers.
    pub id: u64,
    /// The summary of a success, or the backend's error text.
    pub result: Result<Delivered, Vec<u8>>,
}

/// Mathematical view of a [`Completion`].
#[verifier::ext_equal]
pub struct CompletionView {
    pub id: u64,
    pub result: Result<Delivered, Seq<u8>>,
}

impl View for Completion {
    type V = CompletionView;

    open spec fn view(&self) -> CompletionView {
        CompletionView {
            id: self.id,
            result: match &self.result {
                Ok(d) => Ok(*d),
                Err(e) => Err(e@),
            },
        }
    }
}

/// What servicing one inbound frame asks the caller to do.
pub struct FrameOutcome {
    /// Completion for the waiting caller, when the frame answered a
    /// pending request.
    pub completion: Option<Completion>,
    /// Opaque call-signaling payload to route verbatim to the media
    /// collaborator.
    pub call_signal: Option<Vec<u8>>,
    /// The frame was not a valid message and was dropped without effect;
    /// worth a logged warning, never a disconnect.
    pub decode_error: bool,
}

/// Mathematical view of a [`FrameOutcome`].
#[verifier::ext_equal]
pub struct FrameOutcomeView {
    pub completion: Option<CompletionView>,
    pub call_signal: Option<Seq<u8>>,
    pub decode_error: bool,
}

impl View for FrameOutcome {
    type V = FrameOutcomeView;

    open spec fn view(&self) -> FrameOutcomeView {
        FrameOutcomeView {
            completion: match &self.completion {
                Some(c) => Some(c@),
                None => None,
            },
            call_signal: match &self.call_signal {
                Some(p) => Some(p@),
                None => None,
            },
            decode_error: self.decode_error,
        }
    }
}

/// What servicing one lifecycle event asks the caller to do.
pub struct LifecycleOutcome {
    /// Open the transport (connect and hand over the auth token).
    pub connect: bool,
    /// Arm the fixed-delay backoff timer.
    pub start_backoff: bool,
    /// Bootstrap frames to send now, in order, before servicing anything
    /// else: issued exactly when a handshake completed.
    pub frames: Vec<Vec<u8>>,
}

/// The synchronization engine.
pub struct Engine {
    /// Connection lifecycle state machine.
    pub supervisor: Supervisor,
    /// Pending-request table and id counter.
    pub correlator: Correlator,
    /// The chat cache the UI renders from.
    pub cache: Cache,
    /// Identity of the authenticated user, used to suppress push echoes of
    /// the user's own messages; supplied by the auth collaborator.
    pub self_id: Option<u64>,
}

/// The cache transition a response payload causes. A history page needs
/// its pending request for context: `page_target` is the chat id of the
/// pending history request, if the response answered one.
pub open spec fn response_merges(
    pre: CacheView,
    post: CacheView,
    p: ResponsePayloadView,
    page_target: Option<u64>,
) -> bool {
    match p {
        ResponsePayloadView::Chats { chats } => post.chats == chats && post.me == pre.me,
        ResponsePayloadView::SelfProfile { user } => post.me == Some(user) && post.chats
            == pre.chats,
        ResponsePayloadView::Messages { messages } => match page_target {
            Some(chat_id) => post.me == pre.me && {
                ||| (exists|k: int|
                    #[trigger] first_chat_at(pre.chats, chat_id, k) && post.chats == pre.chats.update(
                        k,
                        prepended(pre.chats[k], messages),
                    ))
                ||| (post == pre && chat_absent(pre.chats, chat_id))
            },
            None => post == pre,
        },
        ResponsePayloadView::MessageSent { message } => post.me == pre.me && (new_message_applied(
            pre.chats,
            post.chats,
            message,
        ) || (post == pre && new_message_dropped(pre.chats, message))),
        ResponsePayloadView::ChatCreated { chat } => post.me == pre.me && {
            ||| (exists|j: int| #[trigger] chat_inserted(pre.chats, post.chats, chat, j))
            ||| (post == pre && !chat_absent(pre.chats, chat.id))
        },
        ResponsePayloadView::ChatJoined => post == pre,
        ResponsePayloadView::MarkedRead => post == pre,
        ResponsePayloadView::CallSignal { .. } => post == pre,
    }
}

/// The summary a successful response payload is reported as.
pub open spec fn delivered_of(p: ResponsePayloadView, page_target: Option<u64>) -> Delivered {
    match p {
        ResponsePayloadView::Chats { .. } => Delivered::Chats,
        ResponsePayloadView::SelfProfile { .. } => Delivered::SelfProfile,
        ResponsePayloadView::Messages { messages } => Delivered::Messages {
            target: page_target,
            count: messages.len() as usize,
        },
        ResponsePayloadView::MessageSent { .. } => Delivered::MessageSent,
        ResponsePayloadView::ChatCreated { chat } => Delivered::ChatCreated { chat_id: chat.id },
        ResponsePayloadView::ChatJoined => Delivered::ChatJoined,
        ResponsePayloadView::MarkedRead => Delivered::MarkedRead,
        ResponsePayloadView::CallSignal { .. } => Delivered::CallSignal,
    }
}

/// The chat id of a pending history request, if the entry is one.
pub open spec fn page_target_of(p: PendingRequestView) -> Option<u64> {
    match p.payload {
        ClientPayloadView::GetMessages { chat_id, .. } => Some(chat_id),
        _ => None,
    }
}

/// Everything one well-formed inbound message does: how the correlator,
/// the cache and the outcome relate to the message. Push events touch the
/// cache under the reconciler's merge rules; responses resolve at most one
/// pending request and merge by payload kind; push echoes of the user's
/// own messages are dropped.
pub open spec fn frame_handled(
    pre_cor: CorrelatorView,
    post_cor: CorrelatorView,
    pre_cache: CacheView,
    post_cache: CacheView,
    self_id: Option<u64>,
    v: ServerMessageView,
    out: FrameOutcomeView,
) -> bool {
    match v {
        ServerMessageView::RequestResponse { id, result } => {
            &&& post_cor.next_id == pre_cor.next_id
            &&& (if no_pending(pre_cor.pending, id) {
                &&& post_cor == pre_cor
                &&& out.completion is None
                &&& match result {
                    Ok(p) => response_merges(pre_cache, post_cache, p, None) && (match p {
                        ResponsePayloadView::CallSignal { payload } => out.call_signal == Some(
                            payload,
                        ),
                        _ => out.call_signal is None,
                    }),
                    Err(_) => post_cache == pre_cache && out.call_signal is None,
                }
            } else {
                exists|k: int|
                    #[trigger] first_pending_at(pre_cor.pending, id, k) && post_cor.pending
                        == pre_cor.pending.remove(k) && match result {
                        Ok(p) => {
                            &&& out.completion == Some(
                                CompletionView {
                                    id,
                                    result: Ok(
                                        delivered_of(p, page_target_of(pre_cor.pending[k])),
                                    ),
                                },
                            )
                            &&& response_merges(
                                pre_cache,
                                post_cache,
                                p,
                                page_target_of(pre_cor.pending[k]),
                            )
                            &&& (match p {
                                ResponsePayloadView::CallSignal { payload } => out.call_signal
                                    == Some(payload),
                                _ => out.call_signal is None,
                            })
                        },
                        Err(e) => {
                            &&& out.completion == Some(CompletionView { id, result: Err(e) })
                            &&& post_cache == pre_cache
                            &&& out.call_signal is None
                        },
                    }
            })
        },
        ServerMessageView::NewMessage { message } => {
            &&& post_cor == pre_cor
            &&& out.completion is None
            &&& out.call_signal is None
            &&& post_cache.me == pre_cache.me
            &&& (if message.creator == self_id && message.creator is Some {
                post_cache == pre_cache
            } else {
                new_message_applied(pre_cache.chats, post_cache.chats, message) || (post_cache
                    == pre_cache && new_message_dropped(pre_cache.chats, message))
            })
        },
        ServerMessageView::UserJoined { chat_id, user } => {
            &&& post_cor == pre_cor
            &&& out.completion is None
            &&& out.call_signal is None
            &&& post_cache.me == pre_cache.me
            &&& {
                ||| (exists|k: int|
                    #[trigger] first_chat_at(pre_cache.chats, chat_id, k) && !has_user(
                        pre_cache.chats[k].users,
                        user.id,
                    ) && post_cache.chats == pre_cache.chats.update(
                        k,
                        with_user(pre_cache.chats[k], user),
                    ))
                ||| (post_cache == pre_cache && (chat_absent(pre_cache.chats, chat_id) || exists|
                    k: int,
                |
                    #[trigger] first_chat_at(pre_cache.chats, chat_id, k) && has_user(
                        pre_cache.chats[k].users,
                        user.id,
                    )))
            }
        },
        ServerMessageView::ChatReadUpdated { chat_id, user_id, ts } => {
            &&& post_cor == pre_cor
            &&& out.completion is None
            &&& out.call_signal is None
            &&& post_cache.me == pre_cache.me
            &&& {
                ||| (exists|k: int, u: int|
                    #![trigger first_chat_at(pre_cache.chats, chat_id, k),
                        crate::cache::first_user_at(pre_cache.chats[k].users, user_id, u)]
                    first_chat_at(pre_cache.chats, chat_id, k) && crate::cache::first_user_at(
                        pre_cache.chats[k].users,
                        user_id,
                        u,
                    ) && post_cache.chats == pre_cache.chats.update(
                        k,
                        with_read_receipt(pre_cache.chats[k], u, ts),
                    ))
                ||| (post_cache == pre_cache && (chat_absent(pre_cache.chats, chat_id) || exists|
                    k: int,
                |
                    #[trigger] first_chat_at(pre_cache.chats, chat_id, k) && !has_user(
                        pre_cache.chats[k].users,
                        user_id,
                    )))
            }
        },
        ServerMessageView::ProfileUpdated { user } => {
            &&& post_cor == pre_cor
            &&& out.completion is None
            &&& out.call_signal is None
            &&& post_cache.me == Some(user)
            &&& post_cache.chats == pre_cache.chats
        },
        ServerMessageView::CallSignal { payload } => {
            &&& post_cor == pre_cor
            &&& post_cache == pre_cache
            &&& out.completion is None
            &&& out.call_signal == Some(payload)
        },
    }
}

/// The follow-up a completed join request owes: a successful join is
/// answered with a fresh chat-list request, so the joined chat appears in
/// the cache on the next authoritative snapshot; any other outcome owes
/// nothing.
pub fn join_follow_up(result: &Result<Delivered, Vec<u8>>) -> (r: Option<ClientPayload>)
    ensures
        match result {
            Ok(d) => {
                &&& (d is ChatJoined ==> (r matches Some(p) && p@ == ClientPayloadView::GetChats))
                &&& (!(d is ChatJoined) ==> r is None)
            },
            Err(_) => r is None,
        },
{
    match result {
        Ok(Delivered::ChatJoined) => Some(ClientPayload::GetChats),
        _ => None,
    }
}

impl Engine {
    /// The correlator's table is always well formed.
    pub open spec fn wf(self) -> bool {
        self.correlator@.wf()
    }

    /// A fresh engine: disconnected, no pending requests, empty cache, no
    /// identity.
    pub fn new() -> (r: Engine)
        ensures
            r.wf(),
            r.supervisor@ is Disconnected,
            r.correlator@.next_id == 0,
            r.correlator@.pending.len() == 0,
            r.cache@.chats.len() == 0,
            r.cache@.me is None,
            r.self_id is None,
    {
        Engine {
            supervisor: Supervisor::new(),
            correlator: Correlator::new(),
            cache: Cache::new(),
            self_id: None,
        }
    }

    /// Records the authenticated user's identity (or clears it), as
    /// supplied by the auth collaborator.
    pub fn set_identity(&mut self, id: Option<u64>)
        ensures
            final(self).self_id == id,
            final(self).supervisor == old(self).supervisor,
            final(self).correlator == old(self).correlator,
            final(self).cache == old(self).cache,
            old(self).wf() ==> final(self).wf(),
    {
        self.self_id = id;
    }

    /// Issues a request: when the session is authenticated, a fresh id is
    /// registered and the encoded frame to send is returned; otherwise the
    /// request fails fast with a not-connected error and nothing changes —
    /// it is never queued.
    pub fn issue(&mut self, payload: ClientPayload) -> (r: Result<Vec<u8>, IssueError>)
        requires
            old(self).wf(),
            old(self).correlator@.next_id < u64::MAX,
        ensures
            final(self).wf(),
            final(self).supervisor == old(self).supervisor,
            final(self).cache == old(self).cache,
            final(self).self_id == old(self).self_id,
            !(old(self).supervisor@ is Authenticated) ==> (r matches Err(e) && e
                == IssueError::NotConnected && *final(self) == *old(self)),
            old(self).supervisor@ is Authenticated ==> (r matches Ok(frame) && {
                &&& frame@ == enc_client(
                    ClientMessageView { id: old(self).correlator@.next_id, payload: payload@ },
                )
                &&& final(self).correlator@.pending == old(self).correlator@.pending.push(
                    PendingRequestView { id: old(self).correlator@.next_id, payload: payload@ },
                )
                &&& final(self).correlator@.next_id == old(self).correlator@.next_id + 1
            }),
    {
        let connected = self.supervisor.is_authenticated();
        match self.correlator.issue(payload, connected) {
            Err(e) => Err(e),
            Ok(msg) => Ok(encode_client(&msg)),
        }
    }

    /// Applies one transport lifecycle event. A completed handshake clears
    /// the stale pending table, restarts the id counter and returns the
    /// bootstrap frames — the chat-list request and the own-profile
    /// request, in that order — to send before anything else; their
    /// responses replace the cache wholesale. A degradation drops every
    /// pending completion, since ids are only unique per connection and no
    /// response of the dead connection may resolve a new request.
    pub fn on_lifecycle(&mut self, ev: SessionEvent) -> (out: LifecycleOutcome)
        requires
            old(self).wf(),
        ensures
            final(self).wf(),
            final(self).cache == old(self).cache,
            final(self).self_id == old(self).self_id,
            final(self).supervisor@ == step_spec(old(self).supervisor@, ev@),
            out.connect == connects_on(old(self).supervisor@, ev@),
            out.start_backoff == degrades_on(old(self).supervisor@, ev@),
            authenticates_on(old(self).supervisor@, ev@) ==> {
                &&& out.frames@.len() == 2
                &&& out.frames@[0]@ == enc_client(
                    ClientMessageView { id: 0, payload: ClientPayloadView::GetChats },
                )
                &&& out.frames@[1]@ == enc_client(
                    ClientMessageView { id: 1, payload: ClientPayloadView::GetSelf },
                )
                &&& final(self).correlator@.pending =~= seq![
                    PendingRequestView { id: 0, payload: ClientPayloadView::GetChats },
                    PendingRequestView { id: 1, payload: ClientPayloadView::GetSelf },
                ]
                &&& final(self).correlator@.next_id == 2
            },
            !authenticates_on(old(self).supervisor@, ev@) && degrades_on(
                old(self).supervisor@,
                ev@,
            ) ==> final(self).correlator@.pending.len() == 0,
            !authenticates_on(old(self).supervisor@, ev@) && !degrades_on(
                old(self).supervisor@,
                ev@,
            ) ==> final(self).correlator == old(self).correlator,
            bootstraps_on(old(self).supervisor@, ev@) == authenticates_on(
                old(self).supervisor@,
                ev@,
            ),
    {
        let a = self.supervisor.step(ev);
        let mut frames: Vec<Vec<u8>> = Vec::new();
        if a.bootstrap {
            self.correlator.clear();
            let m0 = match self.correlator.issue(ClientPayload::GetChats, true) {
                Ok(m) => m,
                Err(_) => {
                    proof {
                        assert(false);
                    }
                    ClientMessage { id: 0, payload: ClientPayload::GetChats }
                },
            };
            frames.push(encode_client(&m0));
            let m1 = match self.correlator.issue(ClientPayload::GetSelf, true) {
                Ok(m) => m,
                Err(_) => {
                    proof {
                        assert(false);
                    }
                    ClientMessage { id: 1, payload: ClientPayload::GetSelf }
                },
            };
            frames.push(encode_client(&m1));
            proof {
                assert(final(self).correlator@.pending =~= seq![
                    PendingRequestView { id: 0, payload: ClientPayloadView::GetChats },
                    PendingRequestView { id: 1, payload: ClientPayloadView::GetSelf },
                ]);
            }
        } else if a.start_backoff {
            self.correlator.clear();
        }
        LifecycleOutcome { connect: a.connect, start_backoff: a.start_backoff, frames }
    }

    /// Services one inbound frame. A frame that decodes to a server
    /// message is merged atomically: a response resolves its pending
    /// request (at most once) and merges its payload under the
    /// reconciler's rules; a push event merges directly, with push echoes
    /// of the user's own messages dropped; call-signaling payloads are
    /// routed verbatim. A frame that does not decode changes nothing at
    /// all — it is reported for logging and the connection stays up.
    pub fn handle_frame(&mut self, frame: &Vec<u8>) -> (out: FrameOutcome)
        requires
            old(self).wf(),
        ensures
            final(self).wf(),
            final(self).supervisor == old(self).supervisor,
            final(self).self_id == old(self).self_id,
            out@.decode_error == !(exists|v: ServerMessageView|
                server_ok(v) && frame@ == #[trigger] enc_server(v)),
            out@.decode_error ==> *final(self) == *old(self) && out@.completion is None
                && out@.call_signal is None,
            forall|v: ServerMessageView|
                server_ok(v) && frame@ == #[trigger] enc_server(v) ==> frame_handled(
                    old(self).correlator@,
                    final(self).correlator@,
                    old(self).cache@,
                    final(self).cache@,
                    old(self).self_id,
                    v,
                    out@,
                ),
    {
        let m = match decode_server(frame) {
            Err(_) => {
                return FrameOutcome { completion: None, call_signal: None, decode_error: true };
            },
            Ok(m) => m,
        };
        let ghost mv = m@;
        match m {
            ServerMessage::RequestResponse { id, result } => {
                let pending = self.correlator.resolve(id);
                let had_pending = pending.is_some();
                let target: Option<u64> = match &pending {
                    Some(p) => match &p.payload {
                        ClientPayload::GetMessages { chat_id, .. } => Some(*chat_id),
                        _ => None,
                    },
                    None => None,
                };
                proof {
                    if had_pending {
                        let k = choose|k: int|
                            #[trigger] first_pending_at(old(self).correlator@.pending, id, k)
                                && pending->0@ == old(self).correlator@.pending[k]
                                && self.correlator@.pending == old(self).correlator@.pending.remove(
                                k,
                            );
                        assert(target == page_target_of(old(self).correlator@.pending[k]));
                    }
                }
                let mut call_signal: Option<Vec<u8>> = None;
                let completion: Option<Completion> = match result {
                    Ok(payload) => {
                        let delivered = match payload {
                            crate::protocol::ResponsePayload::Chats { chats } => {
                                self.cache.replace_chats(chats);
                                Delivered::Chats
                            },
                            crate::protocol::ResponsePayload::SelfProfile { user } => {
                                self.cache.set_profile(user);
                                Delivered::SelfProfile
                            },
                            crate::protocol::ResponsePayload::Messages { messages } => {
                                let count = messages.len();
                                match target {
                                    Some(cid) => {
                                        let _ = self.cache.prepend_page(cid, messages);
                                        Delivered::Messages { target: Some(cid), count }
                                    },
                                    None => Delivered::Messages { target: None, count },
                                }
                            },
                            crate::protocol::ResponsePayload::MessageSent { message } => {
                                let _ = self.cache.apply_new_message(message);
                                Delivered::MessageSent
                            },
                            crate::protocol::ResponsePayload::ChatCreated { chat } => {
                                let cid = chat.id;
                                let _ = self.cache.insert_chat(chat);
                                Delivered::ChatCreated { chat_id: cid }
                            },
                            crate::protocol::ResponsePayload::ChatJoined => Delivered::ChatJoined,
                            crate::protocol::ResponsePayload::MarkedRead => Delivered::MarkedRead,
                            crate::protocol::ResponsePayload::CallSignal { payload } => {
                                call_signal = Some(payload);
                                Delivered::CallSignal
                            },
                        };
                        if had_pending {
                            Some(Completion { id, result: Ok(delivered) })
                        } else {
                            None
                        }
                    },
                    Err(e) => {
                        if had_pending {
                            Some(Completion { id, result: Err(e) })
                        } else {
                            None
                        }
                    },
                };
                let out = FrameOutcome { completion, call_signal, decode_error: false };
                proof {
                    assert(frame_handled(
                        old(self).correlator@,
                        final(self).correlator@,
                        old(self).cache@,
                        final(self).cache@,
                        old(self).self_id,
                        mv,
                        out@,
                    ));
                    assert forall|v: ServerMessageView|
                        server_ok(v) && frame@ == #[trigger] enc_server(v) implies frame_handled(
                        old(self).correlator@,
                        final(self).correlator@,
                        old(self).cache@,
                        final(self).cache@,
                        old(self).self_id,
                        v,
                        out@,
                    ) by {
                        assert(v == mv);
                    };
                }
                out
            },
            ServerMessage::NewMessage { message } => {
                let echo = match (&self.self_id, &message.creator) {
                    (Some(a), Some(b)) => *a == *b,
                    _ => false,
                };
                if !echo {
                    let _ = self.cache.apply_new_message(message);
                }
                let out = FrameOutcome { completion: None, call_signal: None, decode_error: false };
                proof {
                    assert forall|v: ServerMessageView|
                        server_ok(v) && frame@ == #[trigger] enc_server(v) implies frame_handled(
                        old(self).correlator@,
                        final(self).correlator@,
                        old(self).cache@,
                        final(self).cache@,
                        old(self).self_id,
                        v,
                        out@,
                    ) by {
                        assert(v == mv);
                    };
                }
                out
            },
            ServerMessage::UserJoined { chat_id, user } => {
                let _ = self.cache.apply_user_joined(chat_id, user);
                let out = FrameOutcome { completion: None, call_signal: None, decode_error: false };
                proof {
                    assert forall|v: ServerMessageView|
                        server_ok(v) && frame@ == #[trigger] enc_server(v) implies frame_handled(
                        old(self).correlator@,
                        final(self).correlator@,
                        old(self).cache@,
                        final(self).cache@,
                        old(self).self_id,
                        v,
                        out@,
                    ) by {
                        assert(v == mv);
                    };
                }
                out
            },
            ServerMessage::ChatReadUpdated { chat_id, user_id, ts } => {
                let _ = self.cache.apply_chat_read(chat_id, user_id, ts);
                let out = FrameOutcome { completion: None, call_signal: None, decode_error: false };
                proof {
                    assert forall|v: ServerMessageView|
                        server_ok(v) && frame@ == #[trigger] enc_server(v) implies frame_handled(
                        old(self).correlator@,
                        final(self).correlator@,
                        old(self).cache@,
                        final(self).cache@,
                        old(self).self_id,
                        v,
                        out@,
                    ) by {
                        assert(v == mv);
                    };
                }
                out
            },
            ServerMessage::ProfileUpdated { user } => {
                self.cache.set_profile(user);
                let out = FrameOutcome { completion: None, call_signal: None, decode_error: false };
                proof {
                    assert forall|v: ServerMessageView|
                        server_ok(v) && frame@ == #[trigger] enc_server(v) implies frame_handled(
                        old(self).correlator@,
                        final(self).correlator@,
                        old(self).cache@,
                        final(self).cache@,
                        old(self).self_id,
                        v,
                        out@,
                    ) by {
                        assert(v == mv);
                    };
                }
                out
            },
            ServerMessage::CallSignal { payload } => {
                let out = FrameOutcome {
                    completion: None,
                    call_signal: Some(payload),
                    decode_error: false,
                };
                proof {
                    assert forall|v: ServerMessageView|
                        server_ok(v) && frame@ == #[trigger] enc_server(v) implies frame_handled(
                        old(self).correlator@,
                        final(self).correlator@,
                        old(self).cache@,
                        final(self).cache@,
                        old(self).self_id,
                        v,
                        out@,
                    ) by {
                        assert(v == mv);
                    };
                }
                out
            },
        }
    }
}

} // verus!
