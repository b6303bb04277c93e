//! Connection state machine for auto-connect on startup.
//!
//! The state machine performs no I/O: it emits [`ConnectionAction`] values
//! telling the caller what to do next, and the caller reports back what
//! happened.
//!
//! ```text
//! Disconnected --(connect)--> Connecting
//! Connecting --(on_connected)--> Connected
//! Connecting --(on_error)--> Reconnecting | Failed
//! Connected --(on_disconnected)--> Reconnecting | Failed
//! Reconnecting --(on_retry_tick)--> Connecting
//! ```
//!
//! The retry budget (`max_retries` failures) is refilled only by
//! [`ConnectionStateMachine::on_stable_connection`], never by `on_connected`
//! alone: otherwise a server that accepts and immediately drops would be
//! retried forever. How long to wait before each retry is the caller's
//! retry policy.

use vstd::prelude::*;

verus! {

/// Possible states of the connection state machine.
#[derive(Debug, Clone, PartialEq, Eq)]
pub enum ConnectionState {
    /// Not connected and not attempting to connect.
    Disconnected,
    /// Actively attempting to connect.
    Connecting,
    /// Successfully connected to the relay.
    Connected,
    /// Reconnecting after a disconnection.
    Reconnecting {
        /// The current reconnection attempt number (1-based).
        attempt: u32,
    },
    /// Connection has permanently failed.
    Failed {
        /// Human-readable reason for the failure.
        reason: String,
    },
}

/// Actions the caller should perform based on the current state.
#[derive(Debug, Clone, PartialEq, Eq)]
pub enum ConnectionAction {
    /// Initiate a connection to the relay server.
    Connect {
        /// The WebSocket URL of the relay server.
        relay_url: String,
    },
    /// Wait for the retry policy's delay for this attempt, then retry.
    WaitAndRetry {
        /// Which attempt number this retry represents (1-based).
        attempt: u32,
    },
    /// Send identification and subscribe to a document.
    IdentifyAndSubscribe {
        /// The user identifier.
        user_id: String,
        /// The document identifier.
        doc_id: String,
    },
    /// Stop retrying; the connection has permanently failed.
    GiveUp {
        /// Human-readable reason for giving up.
        reason: String,
    },
    /// No action required.
    DoNothing,
}

/// The value of a [`ConnectionState`].
pub enum StateView {
    Disconnected,
    Connecting,
    Connected,
    Reconnecting { attempt: u32 },
    Failed { reason: Seq<char> },
}

/// The value of a [`ConnectionAction`].
pub enum ActionView {
    Connect { relay_url: Seq<char> },
    WaitAndRetry { attempt: u32 },
    IdentifyAndSubscribe { user_id: Seq<char>, doc_id: Seq<char> },
    GiveUp { reason: Seq<char> },
    DoNothing,
}

impl View for ConnectionState {
    type V = StateView;

    open spec fn view(&self) -> StateView {
        match self {
            ConnectionState::Disconnected => StateView::Disconnected,
            ConnectionState::Connecting => StateView::Connecting,
            ConnectionState::Connected => StateView::Connected,
            ConnectionState::Reconnecting { attempt } => StateView::Reconnecting { attempt: *attempt },
            ConnectionState::Failed { reason } => StateView::Failed { reason: reason@ },
        }
    }
}

impl View for ConnectionAction {
    type V = ActionView;

    open spec fn view(&self) -> ActionView {
        match self {
            ConnectionAction::Connect { relay_url } => ActionView::Connect { relay_url: relay_url@ },
            ConnectionAction::WaitAndRetry { attempt } => ActionView::WaitAndRetry { attempt: *attempt },
            ConnectionAction::IdentifyAndSubscribe { user_id, doc_id } => ActionView::IdentifyAndSubscribe {
                user_id: user_id@,
                doc_id: doc_id@,
            },
            ConnectionAction::GiveUp { reason } => ActionView::GiveUp { reason: reason@ },
            ConnectionAction::DoNothing => ActionView::DoNothing,
        }
    }
}

/// Configuration for the connection state machine.
pub struct ConnectionConfig {
    relay_url: String,
    user_id: String,
    doc_id: String,
    auto_connect: bool,
    max_retries: u32,
}

impl ConnectionConfig {
    /// The relay URL.
    pub closed spec fn spec_relay_url(&self) -> Seq<char> {
        self.relay_url@
    }

    /// The user id.
    pub closed spec fn spec_user_id(&self) -> Seq<char> {
        self.user_id@
    }

    /// The document id.
    pub closed spec fn spec_doc_id(&self) -> Seq<char> {
        self.doc_id@
    }

    /// Whether to connect on creation.
    pub closed spec fn spec_auto_connect(&self) -> bool {
        self.auto_connect
    }

    /// How many consecutive failures are retried before giving up.
    pub closed spec fn spec_max_retries(&self) -> u32 {
        self.max_retries
    }

    /// A configuration with auto-connect on and the default budget of five
    /// retries.
    pub fn new(relay_url: String, user_id: String, doc_id: String) -> (c: ConnectionConfig)
        ensures
            c.spec_relay_url() == relay_url@,
            c.spec_user_id() == user_id@,
            c.spec_doc_id() == doc_id@,
            c.spec_auto_connect(),
            c.spec_max_retries() == 5,
    {
        ConnectionConfig { relay_url, user_id, doc_id, auto_connect: true, max_retries: 5 }
    }

    /// Set whether to connect on creation.
    pub fn with_auto_connect(self, auto_connect: bool) -> (c: ConnectionConfig)
        ensures
            c.spec_auto_connect() == auto_connect,
            c.spec_relay_url() == self.spec_relay_url(),
            c.spec_user_id() == self.spec_user_id(),
            c.spec_doc_id() == self.spec_doc_id(),
            c.spec_max_retries() == self.spec_max_retries(),
    {
        let mut c = self;
        c.auto_connect = auto_connect;
        c
    }

    /// Set the retry budget: how many consecutive failures are retried
    /// before giving up.
    pub fn with_max_retries(self, max_retries: u32) -> (c: ConnectionConfig)
        ensures
            c.spec_max_retries() == max_retries,
            c.spec_relay_url() == self.spec_relay_url(),
            c.spec_user_id() == self.spec_user_id(),
            c.spec_doc_id() == self.spec_doc_id(),
            c.spec_auto_connect() == self.spec_auto_connect(),
    {
        let mut c = self;
        c.max_retries = max_retries;
        c
    }

    /// The relay URL.
    pub fn relay_url(&self) -> (r: &str)
        ensures
            r@ == self.spec_relay_url(),
    {
        self.relay_url.as_str()
    }

    /// The user id.
    pub fn user_id(&self) -> (r: &str)
        ensures
            r@ == self.spec_user_id(),
    {
        self.user_id.as_str()
    }

    /// The document id.
    pub fn doc_id(&self) -> (r: &str)
        ensures
            r@ == self.spec_doc_id(),
    {
        self.doc_id.as_str()
    }

    /// Whether to connect on creation.
    pub fn auto_connect(&self) -> (r: bool)
        ensures
            r == self.spec_auto_connect(),
    {
        self.auto_connect
    }

    /// The retry budget.
    pub fn max_retries(&self) -> (r: u32)
        ensures
            r == self.spec_max_retries(),
    {
        self.max_retries
    }
}

/// The state after a failure (a lost connection or a failed attempt) when
/// `retry_count` failures were already counted: retrying as the next
/// attempt while the budget `max_retries` lasts, failed with `reason`
/// after.
pub open spec fn after_failure(retry_count: u32, max_retries: u32, reason: Seq<char>) -> StateView {
    if retry_count + 1 > max_retries {
        StateView::Failed { reason }
    } else {
        StateView::Reconnecting { attempt: (retry_count + 1) as u32 }
    }
}

/// The action the machine asks for in `state`.
pub open spec fn action_for(state: StateView, config: ConnectionConfig) -> ActionView {
    match state {
        StateView::Disconnected => ActionView::DoNothing,
        StateView::Connecting => ActionView::Connect { relay_url: config.spec_relay_url() },
        StateView::Connected => ActionView::IdentifyAndSubscribe {
            user_id: config.spec_user_id(),
            doc_id: config.spec_doc_id(),
        },
        StateView::Reconnecting { attempt } => if attempt - 1 >= config.spec_max_retries() {
            ActionView::GiveUp { reason: seq!['m', 'a', 'x', ' ', 'r', 'e', 't', 'r', 'i', 'e', 's', ' ', 'e', 'x', 'c', 'e', 'e', 'd', 'e', 'd'] }
        } else {
            ActionView::WaitAndRetry { attempt }
        },
        StateView::Failed { reason } => ActionView::GiveUp { reason },
    }
}

/// A synchronous connection state machine: it tracks the connection state
/// and emits actions for the caller to execute.
pub struct ConnectionStateMachine {
    config: ConnectionConfig,
    state: ConnectionState,
    retry_count: u32,
}

impl ConnectionStateMachine {
    /// The configuration.
    pub closed spec fn config(&self) -> ConnectionConfig {
        self.config
    }

    /// The current state.
    pub closed spec fn spec_state(&self) -> StateView {
        self.state@
    }

    /// Failures counted since the budget was last refilled.
    pub closed spec fn retry_count(&self) -> u32 {
        self.retry_count
    }

    /// The failures counted since the budget was last refilled, for callers
    /// that must check the count can still grow.
    pub fn retries(&self) -> (r: u32)
        ensures
            r == self.retry_count(),
    {
        self.retry_count
    }

    /// The machine's invariant: while not failed the count is within the
    /// budget, and so is the number of a reconnect attempt.
    pub closed spec fn wf(&self) -> bool {
        &&& !(self.state@ is Failed) ==> self.retry_count <= self.config.max_retries
        &&& self.state@ matches StateView::Reconnecting { attempt } ==> 1 <= attempt <= self.config.max_retries
    }

    /// A machine in `Connecting` when the configuration says to connect on
    /// creation, else `Disconnected`, with the full retry budget.
    pub fn new(config: ConnectionConfig) -> (sm: ConnectionStateMachine)
        ensures
            sm.wf(),
            sm.config() == config,
            sm.spec_state() == (if config.spec_auto_connect() { StateView::Connecting } else { StateView::Disconnected }),
            sm.retry_count() == 0,
    {
        let state = if config.auto_connect { ConnectionState::Connecting } else { ConnectionState::Disconnected };
        ConnectionStateMachine { config, state, retry_count: 0 }
    }

    /// The current state.
    pub fn state(&self) -> (r: &ConnectionState)
        ensures
            r@ == self.spec_state(),
    {
        &self.state
    }

    /// The next action the caller should take.
    pub fn next_action(&self) -> (a: ConnectionAction)
        requires
            self.wf(),
        ensures
            a@ == action_for(self.spec_state(), self.config()),
    {
        match &self.state {
            ConnectionState::Disconnected => ConnectionAction::DoNothing,
            ConnectionState::Connecting => ConnectionAction::Connect { relay_url: self.config.relay_url.clone() },
            ConnectionState::Connected => ConnectionAction::IdentifyAndSubscribe {
                user_id: self.config.user_id.clone(),
                doc_id: self.config.doc_id.clone(),
            },
            ConnectionState::Reconnecting { attempt } => {
                if *attempt - 1 >= self.config.max_retries {
                    let reason = "max retries exceeded".to_owned();
                    proof { reveal_strlit("max retries exceeded"); }
                    assert(reason@ =~= seq!['m', 'a', 'x', ' ', 'r', 'e', 't', 'r', 'i', 'e', 's', ' ', 'e', 'x', 'c', 'e', 'e', 'd', 'e', 'd']);
                    ConnectionAction::GiveUp { reason }
                } else {
                    ConnectionAction::WaitAndRetry { attempt: *attempt }
                }
            },
            ConnectionState::Failed { reason } => ConnectionAction::GiveUp { reason: reason.clone() },
        }
    }

    /// Request a connection: `Disconnected` becomes `Connecting`; any other
    /// state is left as it is.
    pub fn connect(&mut self)
        requires
            old(self).wf(),
        ensures
            final(self).wf(),
            final(self).config() == old(self).config(),
            final(self).retry_count() == old(self).retry_count(),
            final(self).spec_state() == (if old(self).spec_state() is Disconnected { StateView::Connecting } else { old(self).spec_state() }),
    {
        if let ConnectionState::Disconnected = self.state {
            self.state = ConnectionState::Connecting;
        }
    }

    /// The connection is up. The retry count is kept: an accepted
    /// connection is no proof the connection is useful.
    pub fn on_connected(&mut self)
        requires
            old(self).wf(),
            !(old(self).spec_state() is Failed),
        ensures
            final(self).wf(),
            final(self).config() == old(self).config(),
            final(self).retry_count() == old(self).retry_count(),
            final(self).spec_state() == StateView::Connected,
    {
        self.state = ConnectionState::Connected;
    }

    /// The connection proved stable: refill the retry budget.
    pub fn on_stable_connection(&mut self)
        requires
            old(self).wf(),
        ensures
            final(self).wf(),
            final(self).config() == old(self).config(),
            final(self).spec_state() == old(self).spec_state(),
            final(self).retry_count() == 0,
    {
        self.retry_count = 0;
    }

    /// The connection ended: count a failure, then reconnect or fail.
    pub fn on_disconnected(&mut self)
        requires
            old(self).wf(),
            !(old(self).spec_state() is Failed),
            old(self).retry_count() < u32::MAX,
        ensures
            final(self).wf(),
            final(self).config() == old(self).config(),
            final(self).retry_count() == old(self).retry_count() + 1,
            final(self).spec_state() == after_failure(
                old(self).retry_count(),
                old(self).config().spec_max_retries(),
                seq!['c', 'o', 'n', 'n', 'e', 'c', 't', 'i', 'o', 'n', ' ', 'l', 'o', 's', 't'],
            ),
    {
        let reason = "connection lost";
        proof { reveal_strlit("connection lost"); }
        assert(reason@ =~= seq!['c', 'o', 'n', 'n', 'e', 'c', 't', 'i', 'o', 'n', ' ', 'l', 'o', 's', 't']);
        self.advance_retry(reason);
    }

    /// A connection attempt failed with `reason`: count a failure, then
    /// reconnect or fail.
    pub fn on_error(&mut self, reason: &str)
        requires
            old(self).wf(),
            !(old(self).spec_state() is Failed),
            old(self).retry_count() < u32::MAX,
        ensures
            final(self).wf(),
            final(self).config() == old(self).config(),
            final(self).retry_count() == old(self).retry_count() + 1,
            final(self).spec_state() == after_failure(old(self).retry_count(), old(self).config().spec_max_retries(), reason@),
    {
        self.advance_retry(reason);
    }

    /// The retry delay elapsed: `Reconnecting` becomes `Connecting`; any
    /// other state is left as it is.
    pub fn on_retry_tick(&mut self)
        requires
            old(self).wf(),
        ensures
            final(self).wf(),
            final(self).config() == old(self).config(),
            final(self).retry_count() == old(self).retry_count(),
            final(self).spec_state() == (if old(self).spec_state() is Reconnecting { StateView::Connecting } else { old(self).spec_state() }),
    {
        if let ConnectionState::Reconnecting { .. } = self.state {
            self.state = ConnectionState::Connecting;
        }
    }

    /// Whether the state is `Connected`.
    pub fn is_connected(&self) -> (r: bool)
        ensures
            r == (self.spec_state() is Connected),
    {
        match self.state {
            ConnectionState::Connected => true,
            _ => false,
        }
    }

    /// The configuration's auto-connect setting.
    pub fn is_auto_connect(&self) -> (r: bool)
        ensures
            r == self.config().spec_auto_connect(),
    {
        self.config.auto_connect
    }

    /// Count a failure; fail with `reason` once the budget is exhausted,
    /// else reconnect as the next attempt.
    fn advance_retry(&mut self, reason: &str)
        requires
            old(self).wf(),
            !(old(self).spec_state() is Failed),
            old(self).retry_count() < u32::MAX,
        ensures
            final(self).wf(),
            final(self).config() == old(self).config(),
            final(self).retry_count() == old(self).retry_count() + 1,
            final(self).spec_state() == after_failure(old(self).retry_count(), old(self).config().spec_max_retries(), reason@),
    {
        self.retry_count = self.retry_count + 1;
        if self.retry_count - 1 >= self.config.max_retries {
            self.state = ConnectionState::Failed { reason: reason.to_owned() };
        } else {
            self.state = ConnectionState::Reconnecting { attempt: self.retry_count };
        }
    }
}

/// Without a stable connection in between, failures exhaust the retry
/// budget: the first `max_retries` failures each schedule a reconnect
/// attempt numbered after the failures so far, and the next one gives up
/// with its reason.
pub proof fn lemma_unstable_failures_exhaust_budget(max_retries: u32, count: u32, reason: Seq<char>)
    requires
        count <= max_retries,
    ensures
        count < max_retries ==> after_failure(count, max_retries, reason) == (StateView::Reconnecting { attempt: (count + 1) as u32 }),
        count == max_retries ==> after_failure(count, max_retries, reason) == (StateView::Failed { reason }),
{
}

} // verus!
