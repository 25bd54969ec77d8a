//! Request correlator: matches responses back to their waiting callers.
//!
//! Every outgoing request gets a correlation id that is fresh for the
//! lifetime of the connection (a strictly increasing counter, reset when a
//! new connection starts). The payload is kept with the pending entry so
//! that the eventual response can be merged with its context — a history
//! page, for example, must know which chat it belongs to.
//!
//! Completion is one-shot: resolving an id removes its entry, so resolving
//! the same id again — a late response, a repeated response, or an id that
//! was never issued — finds nothing and changes nothing. Requests issued
//! while the connection is not authenticated fail fast with a not-connected
//! error instead of queuing.

use vstd::prelude::*;

use crate::model::clone_bytes;
use crate::protocol::{ClientMessage, ClientMessageView, ClientPayload, ClientPayloadView};

verus! {

/// Why a request could not be issued.
#[derive(Clone, Copy, PartialEq, Eq, Structural, Debug)]
pub enum IssueError {
    /// The connection is not authenticated; nothing was registered or sent.
    NotConnected,
}

impl IssueError {
    /// Human-readable description of the error.
    pub fn describe(&self) -> (r: &'static str)
        ensures
            r@ == "not connected"@,
    {
        "not connected"
    }
}

/// A registered request awaiting its response.
pub struct PendingRequest {
    /// Correlation id the response will carry.
    pub id: u64,
    /// The request payload, kept as merge context for the response.
    pub payload: ClientPayload,
}

/// Mathematical view of a [`PendingRequest`].
#[verifier::ext_equal]
pub struct PendingRequestView {
    pub id: u64,
    pub payload: ClientPayloadView,
}

impl View for PendingRequest {
    type V = PendingRequestView;

    open spec fn view(&self) -> PendingRequestView {
        PendingRequestView { id: self.id, payload: self.payload@ }
    }
}

/// Views of a sequence of pending requests, element by element.
pub open spec fn views_of_pending(ps: Seq<PendingRequest>) -> Seq<PendingRequestView> {
    ps.map_values(|p: PendingRequest| p@)
}

/// No pending entry carries the given id.
pub open spec fn no_pending(ps: Seq<PendingRequestView>, id: u64) -> bool {
    forall|i: int| 0 <= i < ps.len() ==> (#[trigger] ps[i]).id != id
}

/// `k` is the first position of the pending entry with the given id.
pub open spec fn first_pending_at(ps: Seq<PendingRequestView>, id: u64, k: int) -> bool {
    &&& 0 <= k < ps.len()
    &&& ps[k].id == id
    &&& (forall|i: int| 0 <= i < k ==> ps[i].id != id)
}

/// The correlator that owns the pending table and the id counter.
pub struct Correlator {
    /// The next correlation id to hand out.
    pub next_id: u64,
    /// Requests that were issued and not yet resolved.
    pub pending: Vec<PendingRequest>,
}

/// Mathematical view of a [`Correlator`].
#[verifier::ext_equal]
pub struct CorrelatorView {
    pub next_id: u64,
    pub pending: Seq<PendingRequestView>,
}

impl View for Correlator {
    type V = CorrelatorView;

    open spec fn view(&self) -> CorrelatorView {
        CorrelatorView { next_id: self.next_id, pending: views_of_pending(self.pending@) }
    }
}

impl CorrelatorView {
    /// Every pending id was handed out once: ids are pairwise distinct and
    /// below the counter.
    pub open spec fn wf(self) -> bool {
        &&& (forall|i: int, j: int|
            0 <= i < j < self.pending.len() ==> self.pending[i].id != self.pending[j].id)
        &&& (forall|i: int|
            0 <= i < self.pending.len() ==> (#[trigger] self.pending[i]).id < self.next_id)
    }
}

impl Correlator {
    /// A correlator with no pending requests and a fresh id counter.
    pub fn new() -> (r: Correlator)
        ensures
            r@.next_id == 0,
            r@.pending.len() == 0,
            r@.wf(),
    {
        Correlator { next_id: 0, pending: Vec::new() }
    }

    /// Drops every pending completion and restarts the id counter. Called
    /// when a connection ends: ids are only unique per connection, and a
    /// completion of the dead connection would never arrive.
    pub fn clear(&mut self)
        ensures
            final(self)@.next_id == 0,
            final(self)@.pending.len() == 0,
            final(self)@.wf(),
    {
        self.next_id = 0;
        self.pending = Vec::new();
    }

    /// Issues a request: when connected, hands out a fresh id, registers
    /// the pending completion under it and returns the envelope to send.
    /// When not connected it fails fast with a not-connected error and
    /// registers nothing — requests never queue while disconnected.
    pub fn issue(&mut self, payload: ClientPayload, connected: bool) -> (r: Result<
        ClientMessage,
        IssueError,
    >)
        requires
            old(self)@.wf(),
            old(self)@.next_id < u64::MAX,
        ensures
            final(self)@.wf(),
            !connected ==> (r matches Err(e) && e == IssueError::NotConnected && *final(self)
                == *old(self)),
            connected ==> (r matches Ok(msg) && {
                &&& msg@ == (ClientMessageView { id: old(self)@.next_id, payload: payload@ })
                &&& no_pending(old(self)@.pending, msg@.id)
                &&& final(self)@.pending == old(self)@.pending.push(
                    PendingRequestView { id: msg@.id, payload: payload@ },
                )
                &&& final(self)@.next_id == old(self)@.next_id + 1
            }),
    {
        if !connected {
            return Err(IssueError::NotConnected);
        }
        let id = self.next_id;
        self.next_id = self.next_id + 1;
        let entry = PendingRequest { id, payload };
        let msg = ClientMessage { id, payload: clone_payload(&entry.payload) };
        self.pending.push(entry);
        proof {
            assert(final(self)@.pending =~= old(self)@.pending.push(
                PendingRequestView { id, payload: msg@.payload },
            ));
        }
        Ok(msg)
    }

    /// Resolves the response with the given id: removes and returns the
    /// first pending entry under that id, or returns nothing — and changes
    /// nothing — when no entry is registered (late response, repeated
    /// response, or an id never issued).
    pub fn resolve(&mut self, id: u64) -> (r: Option<PendingRequest>)
        ensures
            final(self)@.next_id == old(self)@.next_id,
            old(self)@.wf() ==> final(self)@.wf(),
            match r {
                Some(p) => exists|k: int|
                    #[trigger] first_pending_at(old(self)@.pending, id, k) && p@ == old(
                        self,
                    )@.pending[k] && final(self)@.pending == old(self)@.pending.remove(k),
                None => *final(self) == *old(self) && no_pending(old(self)@.pending, id),
            },
    {
        let n = self.pending.len();
        for k in 0..n
            invariant
                *self == *old(self),
                n == self.pending.len(),
                forall|i: int| 0 <= i < k ==> views_of_pending(self.pending@)[i].id != id,
        {
            if self.pending[k].id == id {
                let ghost pre = self@.pending;
                let entry = self.pending.remove(k);
                proof {
                    assert(entry@ == pre[k as int]);
                    assert(final(self)@.pending =~= pre.remove(k as int));
                    assert(first_pending_at(pre, id, k as int));
                }
                return Some(entry);
            }
        }
        None
    }
}

/// After an id is resolved, no pending entry carries it any more: by
/// `resolve`'s contract, a second resolve of the same id returns nothing
/// and leaves the correlator exactly as it was. Completion per id happens
/// at most once.
pub proof fn lemma_resolve_idempotent(ps: Seq<PendingRequestView>, id: u64, k: int)
    requires
        forall|i: int, j: int| 0 <= i < j < ps.len() ==> ps[i].id != ps[j].id,
        first_pending_at(ps, id, k),
    ensures
        no_pending(ps.remove(k), id),
{
    assert forall|i: int| 0 <= i < ps.remove(k).len() implies (#[trigger] ps.remove(k)[i]).id
        != id by {
        if i < k {
            assert(ps.remove(k)[i] == ps[i]);
        } else {
            assert(ps.remove(k)[i] == ps[i + 1]);
        }
    }
}

/// Clones a request payload field for field.
fn clone_payload(p: &ClientPayload) -> (r: ClientPayload)
    ensures
        r@ == p@,
{
    match p {
        ClientPayload::GetChats => ClientPayload::GetChats,
        ClientPayload::GetSelf => ClientPayload::GetSelf,
        ClientPayload::GetMessages { chat_id, older_than } => ClientPayload::GetMessages {
            chat_id: *chat_id,
            older_than: *older_than,
        },
        ClientPayload::SendMessage { chat_id, content } => ClientPayload::SendMessage {
            chat_id: *chat_id,
            content: clone_bytes(content),
        },
        ClientPayload::CreateChat { name } => ClientPayload::CreateChat {
            name: clone_bytes(name),
        },
        ClientPayload::JoinChat { chat_id } => ClientPayload::JoinChat { chat_id: *chat_id },
        ClientPayload::UpdateProfile { display_name, profile_image } => {
            ClientPayload::UpdateProfile {
                display_name: clone_opt_bytes(display_name),
                profile_image: clone_opt_bytes(profile_image),
            }
        },
        ClientPayload::MarkChatRead { chat_id } => ClientPayload::MarkChatRead {
            chat_id: *chat_id,
        },
        ClientPayload::CallSignal { payload } => ClientPayload::CallSignal {
            payload: clone_bytes(payload),
        },
    }
}

/// Clones an optional byte string.
fn clone_opt_bytes(b: &Option<Vec<u8>>) -> (r: Option<Vec<u8>>)
    ensures
        crate::protocol::view_of_opt_bytes(r) == crate::protocol::view_of_opt_bytes(*b),
{
    match b {
        Some(v) => Some(clone_bytes(v)),
        None => None,
    }
}

} // verus!
