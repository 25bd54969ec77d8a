//! Connection supervisor: the lifecycle state machine of the one logical
//! connection.
//!
//! The machine moves `Disconnected -> Connecting -> Authenticated`, falls
//! into `Degraded` on any transport-level failure (handshake failure,
//! socket close or error, liveness-probe timeout, token invalidation) and
//! returns to `Disconnected` once the backoff delay elapsed, ready for the
//! next attempt. Malformed inbound frames never touch this machine: only
//! transport-level failures leave `Authenticated`.
//!
//! Entering `Authenticated` requests the bootstrap actions — reissuing the
//! chat-list and own-profile requests — exactly once per (re)connection, so
//! the cache is never left with stale bootstrap data after a drop.

use vstd::prelude::*;

verus! {

/// State of the connection session. Only the supervisor writes it; every
/// other component merely observes it.
#[derive(Debug, PartialEq, Eq)]
pub enum SessionState {
    /// No connection and no attempt running.
    Disconnected,
    /// A connection attempt (connect plus handshake) is in flight.
    Connecting,
    /// The connection is established and authenticated.
    Authenticated,
    /// The connection failed for the recorded reason; the backoff timer is
    /// running before the next attempt.
    Degraded { reason: Vec<u8> },
}

/// Mathematical view of a [`SessionState`].
#[verifier::ext_equal]
pub enum SessionStateView {
    Disconnected,
    Connecting,
    Authenticated,
    Degraded { reason: Seq<u8> },
}

impl View for SessionState {
    type V = SessionStateView;

    open spec fn view(&self) -> SessionStateView {
        match self {
            SessionState::Disconnected => SessionStateView::Disconnected,
            SessionState::Connecting => SessionStateView::Connecting,
            SessionState::Authenticated => SessionStateView::Authenticated,
            SessionState::Degraded { reason } => SessionStateView::Degraded { reason: reason@ },
        }
    }
}

/// Lifecycle events observed by the supervisor.
#[derive(Debug, PartialEq, Eq)]
pub enum SessionEvent {
    /// Periodic tick while an auth token is available.
    TokenPresent,
    /// Periodic tick without an auth token; nothing can connect.
    TokenAbsent,
    /// The transport connected and the handshake succeeded.
    HandshakeOk,
    /// The connection attempt failed.
    HandshakeFailed { reason: Vec<u8> },
    /// The established socket closed or reported an error.
    SocketClosed { reason: Vec<u8> },
    /// The liveness probe timed out.
    ProbeFailed { reason: Vec<u8> },
    /// The auth collaborator reported the token invalid; treated like a
    /// disconnect.
    TokenInvalid,
    /// The backoff delay after a failure elapsed.
    BackoffElapsed,
}

/// Mathematical view of a [`SessionEvent`].
#[verifier::ext_equal]
pub enum SessionEventView {
    TokenPresent,
    TokenAbsent,
    HandshakeOk,
    HandshakeFailed { reason: Seq<u8> },
    SocketClosed { reason: Seq<u8> },
    ProbeFailed { reason: Seq<u8> },
    TokenInvalid,
    BackoffElapsed,
}

impl View for SessionEvent {
    type V = SessionEventView;

    open spec fn view(&self) -> SessionEventView {
        match self {
            SessionEvent::TokenPresent => SessionEventView::TokenPresent,
            SessionEvent::TokenAbsent => SessionEventView::TokenAbsent,
            SessionEvent::HandshakeOk => SessionEventView::HandshakeOk,
            SessionEvent::HandshakeFailed { reason } => SessionEventView::HandshakeFailed {
                reason: reason@,
            },
            SessionEvent::SocketClosed { reason } => SessionEventView::SocketClosed {
                reason: reason@,
            },
            SessionEvent::ProbeFailed { reason } => SessionEventView::ProbeFailed {
                reason: reason@,
            },
            SessionEvent::TokenInvalid => SessionEventView::TokenInvalid,
            SessionEvent::BackoffElapsed => SessionEventView::BackoffElapsed,
        }
    }
}

/// The transition function of the lifecycle machine. Every pair not listed
/// leaves the state alone; in particular no inbound application frame,
/// well formed or not, appears here at all.
pub open spec fn step_spec(s: SessionStateView, ev: SessionEventView) -> SessionStateView {
    match s {
        SessionStateView::Disconnected => match ev {
            SessionEventView::TokenPresent => SessionStateView::Connecting,
            _ => s,
        },
        SessionStateView::Connecting => match ev {
            SessionEventView::HandshakeOk => SessionStateView::Authenticated,
            SessionEventView::HandshakeFailed { reason } => SessionStateView::Degraded { reason },
            _ => s,
        },
        SessionStateView::Authenticated => match ev {
            SessionEventView::SocketClosed { reason } => SessionStateView::Degraded { reason },
            SessionEventView::ProbeFailed { reason } => SessionStateView::Degraded { reason },
            SessionEventView::TokenInvalid => SessionStateView::Degraded {
                reason: Seq::empty(),
            },
            _ => s,
        },
        SessionStateView::Degraded { .. } => match ev {
            SessionEventView::BackoffElapsed => SessionStateView::Disconnected,
            _ => s,
        },
    }
}

/// A connection attempt starts on this step.
pub open spec fn connects_on(s: SessionStateView, ev: SessionEventView) -> bool {
    s is Disconnected && ev is TokenPresent
}

/// The bootstrap requests are issued on this step.
pub open spec fn bootstraps_on(s: SessionStateView, ev: SessionEventView) -> bool {
    s is Connecting && ev is HandshakeOk
}

/// The backoff timer is armed on this step.
pub open spec fn degrades_on(s: SessionStateView, ev: SessionEventView) -> bool {
    step_spec(s, ev) is Degraded && !(s is Degraded)
}

/// The step enters `Authenticated` (a connect or reconnect completes).
pub open spec fn authenticates_on(s: SessionStateView, ev: SessionEventView) -> bool {
    !(s is Authenticated) && step_spec(s, ev) is Authenticated
}

/// The state after running a whole sequence of lifecycle events.
pub open spec fn run_state(s: SessionStateView, evs: Seq<SessionEventView>) -> SessionStateView
    decreases evs.len(),
{
    if evs.len() == 0 {
        s
    } else {
        run_state(step_spec(s, evs[0]), evs.skip(1))
    }
}

/// How often a run issues the bootstrap requests.
pub open spec fn count_bootstraps(s: SessionStateView, evs: Seq<SessionEventView>) -> nat
    decreases evs.len(),
{
    if evs.len() == 0 {
        0
    } else {
        (if bootstraps_on(s, evs[0]) {
            1nat
        } else {
            0nat
        }) + count_bootstraps(step_spec(s, evs[0]), evs.skip(1))
    }
}

/// How often a run enters `Authenticated`.
pub open spec fn count_authentications(s: SessionStateView, evs: Seq<SessionEventView>) -> nat
    decreases evs.len(),
{
    if evs.len() == 0 {
        0
    } else {
        (if authenticates_on(s, evs[0]) {
            1nat
        } else {
            0nat
        }) + count_authentications(step_spec(s, evs[0]), evs.skip(1))
    }
}

/// The bootstrap requests are issued exactly once per completed connect or
/// reconnect: over any run of lifecycle events, the number of bootstrap
/// issues equals the number of entries into `Authenticated`.
pub proof fn lemma_bootstrap_once_per_reconnect(s: SessionStateView, evs: Seq<SessionEventView>)
    ensures
        count_bootstraps(s, evs) == count_authentications(s, evs),
    decreases evs.len(),
{
    if evs.len() > 0 {
        assert(bootstraps_on(s, evs[0]) == authenticates_on(s, evs[0]));
        lemma_bootstrap_once_per_reconnect(step_spec(s, evs[0]), evs.skip(1));
    }
}

/// What the caller must do after a step.
pub struct StepActions {
    /// Open the transport and start the handshake.
    pub connect: bool,
    /// Issue the bootstrap requests (chat list, own profile) now, before
    /// any further event is serviced.
    pub bootstrap: bool,
    /// Arm the fixed-delay backoff timer.
    pub start_backoff: bool,
}

/// The connection supervisor; owns the session state.
pub struct Supervisor {
    /// Current session state.
    pub state: SessionState,
}

impl View for Supervisor {
    type V = SessionStateView;

    open spec fn view(&self) -> SessionStateView {
        self.state@
    }
}

impl Supervisor {
    /// A supervisor that has never connected.
    pub fn new() -> (r: Supervisor)
        ensures
            r@ is Disconnected,
    {
        Supervisor { state: SessionState::Disconnected }
    }

    /// Whether requests may be issued right now.
    pub fn is_authenticated(&self) -> (r: bool)
        ensures
            r == (self@ is Authenticated),
    {
        match self.state {
            SessionState::Authenticated => true,
            _ => false,
        }
    }

    /// Applies one lifecycle event and reports the actions the caller owes:
    /// connecting starts on `Disconnected` with a token, the bootstrap
    /// requests are owed exactly when a handshake completes, and the
    /// backoff timer is armed whenever the session degrades.
    pub fn step(&mut self, ev: SessionEvent) -> (a: StepActions)
        ensures
            final(self)@ == step_spec(old(self)@, ev@),
            a.connect == connects_on(old(self)@, ev@),
            a.bootstrap == bootstraps_on(old(self)@, ev@),
            a.bootstrap == authenticates_on(old(self)@, ev@),
            a.start_backoff == degrades_on(old(self)@, ev@),
    {
        match ev {
            SessionEvent::TokenPresent => {
                match &self.state {
                    SessionState::Disconnected => {
                        self.state = SessionState::Connecting;
                        StepActions { connect: true, bootstrap: false, start_backoff: false }
                    },
                    _ => StepActions { connect: false, bootstrap: false, start_backoff: false },
                }
            },
            SessionEvent::TokenAbsent => {
                StepActions { connect: false, bootstrap: false, start_backoff: false }
            },
            SessionEvent::HandshakeOk => {
                match &self.state {
                    SessionState::Connecting => {
                        self.state = SessionState::Authenticated;
                        StepActions { connect: false, bootstrap: true, start_backoff: false }
                    },
                    _ => StepActions { connect: false, bootstrap: false, start_backoff: false },
                }
            },
            SessionEvent::HandshakeFailed { reason } => {
                match &self.state {
                    SessionState::Connecting => {
                        self.state = SessionState::Degraded { reason };
                        StepActions { connect: false, bootstrap: false, start_backoff: true }
                    },
                    _ => StepActions { connect: false, bootstrap: false, start_backoff: false },
                }
            },
            SessionEvent::SocketClosed { reason } => {
                match &self.state {
                    SessionState::Authenticated => {
                        self.state = SessionState::Degraded { reason };
                        StepActions { connect: false, bootstrap: false, start_backoff: true }
                    },
                    _ => StepActions { connect: false, bootstrap: false, start_backoff: false },
                }
            },
            SessionEvent::ProbeFailed { reason } => {
                match &self.state {
                    SessionState::Authenticated => {
                        self.state = SessionState::Degraded { reason };
                        StepActions { connect: false, bootstrap: false, start_backoff: true }
                    },
                    _ => StepActions { connect: false, bootstrap: false, start_backoff: false },
                }
            },
            SessionEvent::TokenInvalid => {
                match &self.state {
                    SessionState::Authenticated => {
                        self.state = SessionState::Degraded { reason: Vec::new() };
                        proof {
                            assert(final(self)@ =~= step_spec(old(self)@, ev@));
                        }
                        StepActions { connect: false, bootstrap: false, start_backoff: true }
                    },
                    _ => StepActions { connect: false, bootstrap: false, start_backoff: false },
                }
            },
            SessionEvent::BackoffElapsed => {
                match &self.state {
                    SessionState::Degraded { .. } => {
                        self.state = SessionState::Disconnected;
                        StepActions { connect: false, bootstrap: false, start_backoff: false }
                    },
                    _ => StepActions { connect: false, bootstrap: false, start_backoff: false },
                }
            },
        }
    }
}

} // verus!
