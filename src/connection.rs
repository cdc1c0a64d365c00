//! The connection manager: one status machine over the direct and the
//! relayed transport. It decides what to try next; the caller performs the
//! attempt and reports how it went.
use vstd::prelude::*;
use crate::ids::{ConnectionId, IdGenerator, IdError};
use crate::util::owned;

verus! {

#[derive(Debug)]
pub struct RelayConfig {
    pub server_url: String,
    pub enabled: bool,
    pub auto_fallback: bool,
    pub connection_timeout_seconds: u64,
    pub heartbeat_interval_seconds: u64,
}

impl RelayConfig {
    pub fn default_config() -> (r: Self)
        ensures
            r.server_url@ == "ws://localhost:8080/ws"@,
            r.enabled,
            r.auto_fallback,
            r.connection_timeout_seconds == 30,
            r.heartbeat_interval_seconds == 30,
    {
        RelayConfig {
            server_url: owned("ws://localhost:8080/ws"),
            enabled: true,
            auto_fallback: true,
            connection_timeout_seconds: 30,
            heartbeat_interval_seconds: 30,
        }
    }
}

#[derive(Debug)]
pub struct ConnectionConfig {
    pub p2p_enabled: bool,
    pub relay_enabled: bool,
    pub auto_fallback_to_relay: bool,
    pub connection_timeout_seconds: u64,
    pub relay_config: RelayConfig,
}

impl ConnectionConfig {
    pub fn default_config() -> (r: Self)
        ensures
            r.p2p_enabled,
            r.relay_enabled,
            r.auto_fallback_to_relay,
            r.connection_timeout_seconds == 30,
    {
        ConnectionConfig {
            p2p_enabled: true,
            relay_enabled: true,
            auto_fallback_to_relay: true,
            connection_timeout_seconds: 30,
            relay_config: RelayConfig::default_config(),
        }
    }
}

#[derive(Debug, Clone, Copy, PartialEq, Eq, Structural)]
pub enum ConnectionType {
    P2P,
    Relay,
}

#[derive(Debug, PartialEq, Eq)]
pub enum ConnectionStatus {
    Disconnected,
    Connecting,
    Connected(ConnectionType),
    Failed(String),
}

#[derive(Debug)]
pub enum ConnectionEvent {
    StatusChanged(ConnectionStatus),
    ConnectionRequest { from_id: String, device_name: String, requires_permission: bool },
    DataReceived { from_id: String, data_type: String, data: Vec<u8> },
    Error(String),
}

/// What the caller is to do next in a bring-up.
#[derive(Debug, PartialEq, Eq)]
pub enum BringUpAction {
    /// Start the direct server and report the outcome.
    StartP2PHost,
    /// Dial the host with this session id directly and report the outcome.
    DialP2P(String),
    /// Connect to the relay and register under `register_as`, then, for a
    /// viewer, ask the relay for the peer `target`; report the outcome.
    ConnectRelay { register_as: String, target: Option<String> },
    /// The connection is up over this transport.
    Established(ConnectionType),
    /// The bring-up failed for this reason.
    Failed(String),
}

#[derive(Debug, Clone, Copy, PartialEq, Eq, Structural)]
pub enum ConnectionError {
    /// No session id has been minted.
    NoConnectionId,
    /// No transport is connected.
    NotConnected,
    /// Minting a session id failed.
    IdUnavailable,
}

/// Which attempt of a bring-up is in flight.
#[derive(Debug, Clone, Copy, PartialEq, Eq, Structural)]
pub enum Attempt {
    Idle,
    P2P,
    Relay,
}

/// Whether the relay is tried when the direct attempt is not made or fails.
pub open spec fn relay_follows(c: &ConnectionConfig) -> bool {
    c.relay_enabled && (c.auto_fallback_to_relay || !c.p2p_enabled)
}

pub open spec fn failed_with(s: ConnectionStatus, reason: Seq<char>) -> bool {
    s matches ConnectionStatus::Failed(m) && m@ == reason
}

pub struct ConnectionManager {
    config: ConnectionConfig,
    id_generator: IdGenerator,
    current_connection_id: Option<ConnectionId>,
    connection_status: ConnectionStatus,
    attempt: Attempt,
    target: Option<String>,
}

impl ConnectionManager {
    pub closed spec fn status(&self) -> ConnectionStatus {
        self.connection_status
    }

    pub closed spec fn in_flight(&self) -> Attempt {
        self.attempt
    }

    pub closed spec fn settings(&self) -> &ConnectionConfig {
        &self.config
    }

    /// The text of the minted session id, if any.
    pub closed spec fn session_id(&self) -> Option<Seq<char>> {
        match self.current_connection_id {
            Some(c) => Some(c.formatted_id@),
            None => None,
        }
    }

    pub closed spec fn wf(&self) -> bool {
        self.id_generator.wf()
    }

    pub fn new() -> (r: Self)
        ensures
            r.wf(),
            r.status() == ConnectionStatus::Disconnected,
            r.in_flight() == Attempt::Idle,
            r.session_id() is None,
            r.settings().p2p_enabled && r.settings().relay_enabled && r.settings().auto_fallback_to_relay,
    {
        Self::with_config(ConnectionConfig::default_config())
    }

    pub fn with_config(config: ConnectionConfig) -> (r: Self)
        ensures
            r.wf(),
            r.status() == ConnectionStatus::Disconnected,
            r.in_flight() == Attempt::Idle,
            r.session_id() is None,
            *r.settings() == config,
    {
        ConnectionManager {
            config,
            id_generator: IdGenerator::new(),
            current_connection_id: None,
            connection_status: ConnectionStatus::Disconnected,
            attempt: Attempt::Idle,
            target: None,
        }
    }

    /// Mints this host's session id.
    pub fn initialize(&mut self) -> (r: Result<(), IdError>)
        requires
            old(self).wf(),
        ensures
            final(self).wf(),
            final(self).status() == old(self).status(),
            final(self).in_flight() == old(self).in_flight(),
            *final(self).settings() == *old(self).settings(),
            r is Ok ==> exists|n: u32| crate::ids::ID_MIN <= n < crate::ids::ID_END
                && final(self).session_id() == Some(crate::util::decimal(n as nat)),
            r is Err ==> final(self).session_id() == old(self).session_id(),
    {
        let id = self.id_generator.generate_connection_id();
        match id {
            Ok(c) => {
                proof {
                    old(self).id_generator.lemma_space_seven_digits();
                }
                self.current_connection_id = Some(c);
                Ok(())
            },
            Err(e) => Err(e),
        }
    }

    fn set_failed(&mut self, reason: &str) -> (r: BringUpAction)
        ensures
            failed_with(final(self).status(), reason@),
            final(self).in_flight() == Attempt::Idle,
            fails_with(r, reason@),
            final(self).target_id() == old(self).target_id(),
            final(self).wf() == old(self).wf(),
            *final(self).settings() == *old(self).settings(),
            final(self).session_id() == old(self).session_id(),
    {
        self.connection_status = ConnectionStatus::Failed(owned(reason));
        self.attempt = Attempt::Idle;
        BringUpAction::Failed(owned(reason))
    }

    /// The session id of the host a viewer is bringing a connection up to.
    pub closed spec fn target_id(&self) -> Option<Seq<char>> {
        opt_text(self.target)
    }

    fn relay_step(&mut self) -> (r: BringUpAction)
        requires
            old(self).current_connection_id is Some,
        ensures
            final(self).status() == ConnectionStatus::Connecting,
            final(self).in_flight() == Attempt::Relay,
            relays_as(r, old(self).session_id(), old(self).target_id()),
            final(self).wf() == old(self).wf(),
            *final(self).settings() == *old(self).settings(),
            final(self).session_id() == old(self).session_id(),
            final(self).target_id() == old(self).target_id(),
    {
        self.connection_status = ConnectionStatus::Connecting;
        self.attempt = Attempt::Relay;
        let register_as = match &self.current_connection_id {
            Some(c) => c.formatted_id.clone(),
            None => owned(""),
        };
        let target = match &self.target {
            Some(t) => Some(t.clone()),
            None => None,
        };
        BringUpAction::ConnectRelay { register_as, target }
    }

    /// Starts hosting: the direct server is tried first when enabled, else
    /// the relay when enabled; with neither the bring-up fails at once.
    /// Fails without a minted session id, changing nothing.
    pub fn start_hosting(&mut self) -> (r: Result<BringUpAction, ConnectionError>)
        requires
            old(self).wf(),
        ensures
            final(self).wf(),
            *final(self).settings() == *old(self).settings(),
            final(self).session_id() == old(self).session_id(),
            old(self).session_id() is None ==> r == Err::<BringUpAction, ConnectionError>(ConnectionError::NoConnectionId)
                && final(self).status() == old(self).status() && final(self).in_flight() == old(self).in_flight(),
            old(self).session_id() is Some ==> (r is Ok && final(self).target_id() is None && {
                let a = r->Ok_0;
                if old(self).settings().p2p_enabled {
                    a is StartP2PHost && final(self).status() == ConnectionStatus::Connecting && final(self).in_flight() == Attempt::P2P
                } else if old(self).settings().relay_enabled {
                    &&& relays_as(a, old(self).session_id(), None)
                    &&& final(self).status() == ConnectionStatus::Connecting
                    &&& final(self).in_flight() == Attempt::Relay
                } else {
                    a is Failed && final(self).status() is Failed && final(self).in_flight() == Attempt::Idle
                }
            }),
    {
        if self.current_connection_id.is_none() {
            return Err(ConnectionError::NoConnectionId);
        }
        self.target = None;
        if self.config.p2p_enabled {
            self.connection_status = ConnectionStatus::Connecting;
            self.attempt = Attempt::P2P;
            Ok(BringUpAction::StartP2PHost)
        } else if self.config.relay_enabled {
            Ok(self.relay_step())
        } else {
            Ok(self.set_failed("Failed to establish any connection (P2P and Relay)"))
        }
    }

    /// Starts a connection to the host with session id `target`: directly
    /// first when enabled, else through the relay when enabled, minting this
    /// side's session id for the relay if none exists yet.
    pub fn connect_to_host(&mut self, target_connection_id: String) -> (r: BringUpAction)
        requires
            old(self).wf(),
        ensures
            final(self).wf(),
            *final(self).settings() == *old(self).settings(),
            final(self).target_id() == Some(target_connection_id@),
            if old(self).settings().p2p_enabled {
                &&& dials(r, target_connection_id@)
                &&& final(self).status() == ConnectionStatus::Connecting
                &&& final(self).in_flight() == Attempt::P2P
                &&& final(self).session_id() == old(self).session_id()
            } else if old(self).settings().relay_enabled {
                viewer_relay(*old(self), *final(self), r)
            } else {
                r is Failed && final(self).status() is Failed && final(self).in_flight() == Attempt::Idle
                    && final(self).session_id() == old(self).session_id()
            },
    {
        let dial = target_connection_id.clone();
        self.target = Some(target_connection_id);
        if self.config.p2p_enabled {
            self.connection_status = ConnectionStatus::Connecting;
            self.attempt = Attempt::P2P;
            BringUpAction::DialP2P(dial)
        } else if self.config.relay_enabled {
            self.relay_or_mint()
        } else {
            self.set_failed("Failed to establish connection via P2P or Relay")
        }
    }

    /// The relay attempt of a viewer, minting a session id first if needed.
    fn relay_or_mint(&mut self) -> (r: BringUpAction)
        requires
            old(self).wf(),
        ensures
            final(self).wf(),
            *final(self).settings() == *old(self).settings(),
            final(self).target_id() == old(self).target_id(),
            viewer_relay(*old(self), *final(self), r),
    {
        if self.current_connection_id.is_none() {
            match self.id_generator.generate_connection_id() {
                Ok(c) => {
                    self.current_connection_id = Some(c);
                },
                Err(_) => {
                    return self.set_failed("No connection ID available for the relay");
                },
            }
        }
        self.relay_step()
    }

    /// Reports how the direct attempt went. On success the connection is
    /// up; on failure the relay follows when it is enabled with fallback,
    /// else the bring-up fails with the reason given. Ignored, returning
    /// `None`, when no direct attempt is in flight.
    pub fn on_p2p_result(&mut self, result: Result<(), String>) -> (r: Option<BringUpAction>)
        requires
            old(self).wf(),
        ensures
            final(self).wf(),
            *final(self).settings() == *old(self).settings(),
            final(self).target_id() == old(self).target_id(),
            old(self).in_flight() != Attempt::P2P ==> r is None && final(self).status() == old(self).status()
                && final(self).in_flight() == old(self).in_flight() && final(self).session_id() == old(self).session_id(),
            old(self).in_flight() == Attempt::P2P ==> r is Some && match result {
                Ok(_) => {
                    &&& r->Some_0 == BringUpAction::Established(ConnectionType::P2P)
                    &&& final(self).status() == ConnectionStatus::Connected(ConnectionType::P2P)
                    &&& final(self).in_flight() == Attempt::Idle
                    &&& final(self).session_id() == old(self).session_id()
                },
                Err(reason) => if relay_follows(old(self).settings()) {
                    viewer_relay(*old(self), *final(self), r->Some_0)
                } else {
                    &&& fails_with(r->Some_0, reason@)
                    &&& failed_with(final(self).status(), reason@)
                    &&& final(self).in_flight() == Attempt::Idle
                    &&& final(self).session_id() == old(self).session_id()
                },
            },
    {
        if self.attempt != Attempt::P2P {
            return None;
        }
        match result {
            Ok(()) => {
                self.connection_status = ConnectionStatus::Connected(ConnectionType::P2P);
                self.attempt = Attempt::Idle;
                Some(BringUpAction::Established(ConnectionType::P2P))
            },
            Err(reason) => {
                if self.config.relay_enabled && (self.config.auto_fallback_to_relay || !self.config.p2p_enabled) {
                    Some(self.relay_or_mint())
                } else {
                    Some(self.set_failed(reason.as_str()))
                }
            },
        }
    }

    /// Reports how the relay attempt went: the connection is up, or the
    /// bring-up fails with the reason given. Ignored, returning `None`, when
    /// no relay attempt is in flight.
    pub fn on_relay_result(&mut self, result: Result<(), String>) -> (r: Option<BringUpAction>)
        requires
            old(self).wf(),
        ensures
            final(self).wf(),
            *final(self).settings() == *old(self).settings(),
            final(self).session_id() == old(self).session_id(),
            final(self).target_id() == old(self).target_id(),
            old(self).in_flight() != Attempt::Relay ==> r is None && final(self).status() == old(self).status()
                && final(self).in_flight() == old(self).in_flight(),
            old(self).in_flight() == Attempt::Relay ==> r is Some && final(self).in_flight() == Attempt::Idle && match result {
                Ok(_) => r->Some_0 == BringUpAction::Established(ConnectionType::Relay)
                    && final(self).status() == ConnectionStatus::Connected(ConnectionType::Relay),
                Err(reason) => fails_with(r->Some_0, reason@) && failed_with(final(self).status(), reason@),
            },
    {
        if self.attempt != Attempt::Relay {
            return None;
        }
        match result {
            Ok(()) => {
                self.connection_status = ConnectionStatus::Connected(ConnectionType::Relay);
                self.attempt = Attempt::Idle;
                Some(BringUpAction::Established(ConnectionType::Relay))
            },
            Err(reason) => Some(self.set_failed(reason.as_str())),
        }
    }

    /// The bring-up ran past its time limit: the attempt in flight is given
    /// up and the bring-up fails with `Timeout`. Ignored when none is in flight.
    pub fn on_timeout(&mut self) -> (r: Option<BringUpAction>)
        requires
            old(self).wf(),
        ensures
            final(self).wf(),
            *final(self).settings() == *old(self).settings(),
            final(self).session_id() == old(self).session_id(),
            final(self).in_flight() == Attempt::Idle,
            old(self).in_flight() == Attempt::Idle ==> r is None && final(self).status() == old(self).status(),
            old(self).in_flight() != Attempt::Idle ==> r is Some && failed_with(final(self).status(), "Timeout"@),
    {
        if self.attempt == Attempt::Idle {
            return None;
        }
        Some(self.set_failed("Timeout"))
    }

    /// Tears the connection down. Returns the transport to close when one
    /// was up (a relay is sent a disconnect first). Tearing down a manager
    /// that is already disconnected with nothing in flight changes nothing.
    pub fn disconnect(&mut self) -> (r: Option<ConnectionType>)
        requires
            old(self).wf(),
        ensures
            final(self).wf(),
            final(self).status() == ConnectionStatus::Disconnected,
            final(self).in_flight() == Attempt::Idle,
            *final(self).settings() == *old(self).settings(),
            final(self).session_id() == old(self).session_id(),
            final(self).target_id() == old(self).target_id(),
            match old(self).status() {
                ConnectionStatus::Connected(t) => r == Some(t),
                _ => r is None,
            },
    {
        let r = match &self.connection_status {
            ConnectionStatus::Connected(t) => Some(*t),
            _ => None,
        };
        self.connection_status = ConnectionStatus::Disconnected;
        self.attempt = Attempt::Idle;
        r
    }

    /// The transport that a frame or an input message goes out on; fails
    /// unless a connection is up.
    pub fn send_route(&self) -> (r: Result<ConnectionType, ConnectionError>)
        ensures
            match self.status() {
                ConnectionStatus::Connected(t) => r == Ok::<ConnectionType, ConnectionError>(t),
                _ => r == Err::<ConnectionType, ConnectionError>(ConnectionError::NotConnected),
            },
    {
        match &self.connection_status {
            ConnectionStatus::Connected(t) => Ok(*t),
            _ => Err(ConnectionError::NotConnected),
        }
    }

    /// Whether the status is connected, and if so over which transport.
    pub fn get_connection_status(&self) -> (r: ConnectionStatus)
        ensures
            match self.status() {
                ConnectionStatus::Failed(m) => failed_with(r, m@),
                s => r == s,
            },
    {
        match &self.connection_status {
            ConnectionStatus::Disconnected => ConnectionStatus::Disconnected,
            ConnectionStatus::Connecting => ConnectionStatus::Connecting,
            ConnectionStatus::Connected(t) => ConnectionStatus::Connected(*t),
            ConnectionStatus::Failed(m) => ConnectionStatus::Failed(m.clone()),
        }
    }

    pub fn get_connection_id(&self) -> (r: Option<String>)
        ensures
            opt_text(r) == self.session_id(),
    {
        match &self.current_connection_id {
            Some(c) => Some(c.formatted_id.clone()),
            None => None,
        }
    }

    pub fn update_config(&mut self, new_config: ConnectionConfig)
        ensures
            *final(self).settings() == new_config,
            final(self).wf() == old(self).wf(),
            final(self).status() == old(self).status(),
            final(self).in_flight() == old(self).in_flight(),
            final(self).session_id() == old(self).session_id(),
            final(self).target_id() == old(self).target_id(),
    {
        self.config = new_config;
    }
}

/// The action dials the host with this session id.
pub open spec fn dials(a: BringUpAction, target: Seq<char>) -> bool {
    a matches BringUpAction::DialP2P(t) && t@ == target
}

/// The action fails the bring-up with this reason.
pub open spec fn fails_with(a: BringUpAction, reason: Seq<char>) -> bool {
    a matches BringUpAction::Failed(m) && m@ == reason
}

/// The action asks for the relay, registering under `id` and asking for `target`.
pub open spec fn relays_as(a: BringUpAction, id: Option<Seq<char>>, target: Option<Seq<char>>) -> bool {
    a matches BringUpAction::ConnectRelay { register_as, target: t } && Some(register_as@) == id && opt_text(t) == target
}

/// What a viewer's relay step leads to: the relay attempt, under the
/// session id it had or a freshly minted one, or a failure when no id could
/// be minted.
pub open spec fn viewer_relay(pre: ConnectionManager, post: ConnectionManager, a: BringUpAction) -> bool {
    ||| {
        &&& relays_as(a, post.session_id(), post.target_id())
        &&& post.status() == ConnectionStatus::Connecting
        &&& post.in_flight() == Attempt::Relay
        &&& (pre.session_id() is Some ==> post.session_id() == pre.session_id())
    }
    ||| {
        &&& pre.session_id() is None
        &&& a is Failed
        &&& post.status() is Failed
        &&& post.in_flight() == Attempt::Idle
    }
}

pub open spec fn opt_text(o: Option<String>) -> Option<Seq<char>> {
    match o {
        Some(s) => Some(s@),
        None => None,
    }
}

} // verus!
