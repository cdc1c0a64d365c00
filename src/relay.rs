//! The relay client's decisions: which messages to send the broker, and
//! what an inbound message means for the registration state. The socket
//! and the JSON encoding are the caller's.
use vstd::prelude::*;
use base64::Engine;
use crate::connection::RelayConfig;
use crate::util::owned;

verus! {

#[derive(Debug, Clone, Copy, PartialEq, Eq, Structural)]
pub enum RelayMessageType {
    Register,
    RegisterResponse,
    ConnectRequest,
    ConnectResponse,
    Disconnect,
    ScreenFrame,
    InputEvent,
    FileTransfer,
    Heartbeat,
    Error,
}

#[derive(Debug)]
pub struct DeviceInfo {
    pub name: String,
    pub os: String,
    pub version: String,
}

#[derive(Debug)]
pub struct RegisterRequest {
    pub connection_id: String,
    pub device_info: DeviceInfo,
    pub capabilities: Vec<String>,
}

#[derive(Debug)]
pub struct ConnectRequest {
    pub target_connection_id: String,
    pub client_info: DeviceInfo,
}

/// What a relay message carries.
#[derive(Debug)]
pub enum RelayPayload {
    Empty,
    Register(RegisterRequest),
    Connect(ConnectRequest),
    /// A screen frame, base64-encoded.
    Frame { frame_data: String },
    /// An input event, as JSON text.
    Input(String),
    /// A registration answer from the broker.
    Registered { success: bool, connection_id: Option<String>, error: Option<String> },
}

/// A message to or from the broker.
#[derive(Debug)]
pub struct RelayMessage {
    pub message_type: RelayMessageType,
    pub source_id: Option<String>,
    pub target_id: String,
    pub data: RelayPayload,
    /// Milliseconds since the Unix epoch.
    pub timestamp: u64,
}

#[derive(Debug)]
pub enum RelayClientEvent {
    Connected,
    Disconnected,
    /// Any other message, handed on whole.
    MessageReceived(RelayMessage),
    RegistrationSuccess(String),
    RegistrationFailed(String),
    ConnectionRequest(ConnectRequest),
    Error(String),
}

#[derive(Debug, Clone, Copy, PartialEq, Eq, Structural)]
pub enum RelayError {
    /// The relay is switched off in the configuration.
    Disabled,
    /// No connection to the broker is open.
    NotConnected,
    /// The broker has not confirmed a registration.
    NotRegistered,
}

/// The base64 digit of a six-bit value.
pub open spec fn base64_digit(i: int) -> char {
    "ABCDEFGHIJKLMNOPQRSTUVWXYZabcdefghijklmnopqrstuvwxyz0123456789+/"@[i]
}

/// The standard base64 encoding of bytes: each three bytes become four
/// digits, and a last group of one or two bytes is padded with `=`.
pub open spec fn base64_of(b: Seq<u8>) -> Seq<char>
    decreases b.len(),
{
    let x = if b.len() > 0 { b[0] as int } else { 0 };
    let y = if b.len() > 1 { b[1] as int } else { 0 };
    let z = if b.len() > 2 { b[2] as int } else { 0 };
    if b.len() == 0 {
        Seq::empty()
    } else if b.len() == 1 {
        seq![base64_digit(x / 4), base64_digit((x % 4) * 16), '=', '=']
    } else if b.len() == 2 {
        seq![base64_digit(x / 4), base64_digit((x % 4) * 16 + y / 16), base64_digit((y % 16) * 4), '=']
    } else {
        seq![base64_digit(x / 4), base64_digit((x % 4) * 16 + y / 16), base64_digit((y % 16) * 4 + z / 64),
            base64_digit(z % 64)] + base64_of(b.subrange(3, b.len() as int))
    }
}

/// Relies on `base64::engine::general_purpose::STANDARD.encode`: the
/// standard alphabet with padding.
#[verifier::external_body]
fn encode_base64(b: &[u8]) -> (r: String)
    ensures
        r@ == base64_of(b@),
{
    base64::engine::general_purpose::STANDARD.encode(b)
}

fn copy_info(d: &DeviceInfo) -> (r: DeviceInfo)
    ensures
        r.name@ == d.name@,
        r.os@ == d.os@,
        r.version@ == d.version@,
{
    DeviceInfo { name: d.name.clone(), os: d.os.clone(), version: d.version.clone() }
}

fn opt_copy(o: &Option<String>) -> (r: Option<String>)
    ensures
        crate::connection::opt_text(r) == crate::connection::opt_text(*o),
{
    match o {
        Some(s) => Some(s.clone()),
        None => None,
    }
}

pub struct RelayClient {
    config: RelayConfig,
    connection_id: Option<String>,
    device_info: DeviceInfo,
    is_connected: bool,
    is_registered: bool,
}

impl RelayClient {
    pub closed spec fn connected(&self) -> bool {
        self.is_connected
    }

    pub closed spec fn registered(&self) -> bool {
        self.is_registered
    }

    /// The session id registered under, if any.
    pub closed spec fn own_id(&self) -> Option<Seq<char>> {
        crate::connection::opt_text(self.connection_id)
    }

    pub closed spec fn enabled(&self) -> bool {
        self.config.enabled
    }

    pub fn new(config: RelayConfig, device_info: DeviceInfo) -> (r: Self)
        ensures
            !r.connected(),
            !r.registered(),
            r.own_id() is None,
            r.enabled() == config.enabled,
    {
        RelayClient { config, connection_id: None, device_info, is_connected: false, is_registered: false }
    }

    pub fn server_url(&self) -> (r: &str) {
        self.config.server_url.as_str()
    }

    /// Whether a connection may be opened; fails when the relay is off.
    pub fn check_enabled(&self) -> (r: Result<(), RelayError>)
        ensures
            r is Ok <==> self.enabled(),
            r is Err ==> r == Err::<(), RelayError>(RelayError::Disabled),
    {
        if self.config.enabled { Ok(()) } else { Err(RelayError::Disabled) }
    }

    /// The connection to the broker is open.
    pub fn on_connected(&mut self) -> (r: RelayClientEvent)
        ensures
            final(self).connected(),
            final(self).registered() == old(self).registered(),
            final(self).own_id() == old(self).own_id(),
            final(self).enabled() == old(self).enabled(),
            r is Connected,
    {
        self.is_connected = true;
        RelayClientEvent::Connected
    }

    /// The broker closed the connection: the registration is gone too.
    pub fn on_closed(&mut self) -> (r: RelayClientEvent)
        ensures
            !final(self).connected(),
            !final(self).registered(),
            final(self).own_id() == old(self).own_id(),
            final(self).enabled() == old(self).enabled(),
            r is Disconnected,
    {
        self.is_connected = false;
        self.is_registered = false;
        RelayClientEvent::Disconnected
    }

    /// The registration to send for session id `connection_id`; fails
    /// without a connection.
    pub fn register(&mut self, connection_id: String, now: u64) -> (r: Result<RelayMessage, RelayError>)
        ensures
            final(self).connected() == old(self).connected(),
            final(self).registered() == old(self).registered(),
            final(self).enabled() == old(self).enabled(),
            !old(self).connected() ==> r == Err::<RelayMessage, RelayError>(RelayError::NotConnected)
                && final(self).own_id() == old(self).own_id(),
            old(self).connected() ==> final(self).own_id() == Some(connection_id@) && (r matches Ok(m)
                && m.message_type == RelayMessageType::Register && m.target_id@ == "relay"@ && m.source_id is None
                && m.timestamp == now),
    {
        if !self.is_connected {
            return Err(RelayError::NotConnected);
        }
        let request = RegisterRequest {
            connection_id: connection_id.clone(),
            device_info: copy_info(&self.device_info),
            capabilities: vec![owned("screen_share"), owned("input_control"), owned("file_transfer")],
        };
        self.connection_id = Some(connection_id);
        Ok(RelayMessage {
            message_type: RelayMessageType::Register,
            source_id: None,
            target_id: owned("relay"),
            data: RelayPayload::Register(request),
            timestamp: now,
        })
    }

    fn from_self(&self, message_type: RelayMessageType, target_id: String, data: RelayPayload, now: u64) -> (r: RelayMessage)
        ensures
            r.message_type == message_type,
            crate::connection::opt_text(r.source_id) == self.own_id(),
            r.target_id@ == target_id@,
            r.data == data,
            r.timestamp == now,
    {
        RelayMessage { message_type, source_id: opt_copy(&self.connection_id), target_id, data, timestamp: now }
    }

    /// The request to be put through to `target_connection_id`; fails
    /// unless registered.
    pub fn connect_to_peer(&self, target_connection_id: String, now: u64) -> (r: Result<RelayMessage, RelayError>)
        ensures
            !self.registered() ==> r == Err::<RelayMessage, RelayError>(RelayError::NotRegistered),
            self.registered() ==> (r matches Ok(m) && m.message_type == RelayMessageType::ConnectRequest
                && m.target_id@ == target_connection_id@ && crate::connection::opt_text(m.source_id) == self.own_id()),
    {
        if !self.is_registered {
            return Err(RelayError::NotRegistered);
        }
        let request = ConnectRequest { target_connection_id: target_connection_id.clone(), client_info: copy_info(&self.device_info) };
        Ok(self.from_self(RelayMessageType::ConnectRequest, target_connection_id, RelayPayload::Connect(request), now))
    }

    /// A screen frame for `target_id`, its bytes base64-encoded; fails
    /// unless registered.
    pub fn send_screen_frame(&self, target_id: String, frame_data: &[u8], now: u64) -> (r: Result<RelayMessage, RelayError>)
        ensures
            !self.registered() ==> r == Err::<RelayMessage, RelayError>(RelayError::NotRegistered),
            self.registered() ==> (r matches Ok(m) && m.message_type == RelayMessageType::ScreenFrame
                && m.target_id@ == target_id@
                && (m.data matches RelayPayload::Frame { frame_data: f } && f@ == base64_of(frame_data@))),
    {
        if !self.is_registered {
            return Err(RelayError::NotRegistered);
        }
        let encoded = encode_base64(frame_data);
        Ok(self.from_self(RelayMessageType::ScreenFrame, target_id, RelayPayload::Frame { frame_data: encoded }, now))
    }

    /// An input event for `target_id`; fails unless registered.
    pub fn send_input_event(&self, target_id: String, input_json: String, now: u64) -> (r: Result<RelayMessage, RelayError>)
        ensures
            !self.registered() ==> r == Err::<RelayMessage, RelayError>(RelayError::NotRegistered),
            self.registered() ==> (r matches Ok(m) && m.message_type == RelayMessageType::InputEvent
                && m.target_id@ == target_id@ && m.data == RelayPayload::Input(input_json)
                && crate::connection::opt_text(m.source_id) == self.own_id() && m.timestamp == now),
    {
        if !self.is_registered {
            return Err(RelayError::NotRegistered);
        }
        Ok(self.from_self(RelayMessageType::InputEvent, target_id, RelayPayload::Input(input_json), now))
    }

    /// The keepalive to send, while connected.
    pub fn heartbeat(&self, now: u64) -> (r: Option<RelayMessage>)
        ensures
            r is Some <==> self.connected(),
            r matches Some(m) ==> m.message_type == RelayMessageType::Heartbeat,
    {
        if !self.is_connected {
            return None;
        }
        Some(self.from_self(RelayMessageType::Heartbeat, owned("relay"), RelayPayload::Empty, now))
    }

    /// Leaves the broker: when connected and registered under an id, the
    /// disconnect message to send first. Afterwards neither connected nor
    /// registered; leaving twice sends nothing the second time.
    pub fn disconnect(&mut self, now: u64) -> (r: Option<RelayMessage>)
        ensures
            !final(self).connected(),
            !final(self).registered(),
            final(self).own_id() == old(self).own_id(),
            r is Some <==> (old(self).connected() && old(self).own_id() is Some),
            r matches Some(m) ==> m.message_type == RelayMessageType::Disconnect,
    {
        let r = if self.is_connected && self.connection_id.is_some() {
            Some(self.from_self(RelayMessageType::Disconnect, owned("relay"), RelayPayload::Empty, now))
        } else {
            None
        };
        self.is_connected = false;
        self.is_registered = false;
        r
    }

    /// What an inbound message means. A registration answer sets or leaves
    /// the registered flag and reports the outcome (a success without an id
    /// reports nothing); a connection request is handed on; anything else
    /// is handed on whole.
    pub fn handle_incoming(&mut self, message: RelayMessage) -> (r: Option<RelayClientEvent>)
        ensures
            final(self).connected() == old(self).connected(),
            final(self).own_id() == old(self).own_id(),
            match (message.message_type, message.data) {
                (RelayMessageType::RegisterResponse, RelayPayload::Registered { success, connection_id, error }) => {
                    &&& final(self).registered() == (old(self).registered() || success)
                    &&& (success ==> match connection_id {
                        Some(id) => r == Some(RelayClientEvent::RegistrationSuccess(id)),
                        None => r is None,
                    })
                    &&& (!success ==> r matches Some(RelayClientEvent::RegistrationFailed(_)))
                },
                (RelayMessageType::RegisterResponse, _) => r is None && final(self).registered() == old(self).registered(),
                (RelayMessageType::ConnectRequest, RelayPayload::Connect(req)) => r == Some(RelayClientEvent::ConnectionRequest(req))
                    && final(self).registered() == old(self).registered(),
                (RelayMessageType::ConnectRequest, _) => r is None && final(self).registered() == old(self).registered(),
                _ => r == Some(RelayClientEvent::MessageReceived(message)) && final(self).registered() == old(self).registered(),
            },
    {
        match message.message_type {
            RelayMessageType::RegisterResponse => match message.data {
                RelayPayload::Registered { success, connection_id, error } => {
                    if success {
                        self.is_registered = true;
                        match connection_id {
                            Some(id) => Some(RelayClientEvent::RegistrationSuccess(id)),
                            None => None,
                        }
                    } else {
                        let reason = match error {
                            Some(e) => e,
                            None => owned("Unknown error"),
                        };
                        Some(RelayClientEvent::RegistrationFailed(reason))
                    }
                },
                _ => None,
            },
            RelayMessageType::ConnectRequest => match message.data {
                RelayPayload::Connect(req) => Some(RelayClientEvent::ConnectionRequest(req)),
                _ => None,
            },
            _ => Some(RelayClientEvent::MessageReceived(message)),
        }
    }
}

} // verus!
