//! The viewer's session with a host: what each frame read from the socket
//! calls for. Reading, writing and the protocol's JSON are the caller's.
use vstd::prelude::*;

verus! {

#[derive(Debug)]
pub enum ClientEvent {
    Connected,
    Disconnected,
    AuthenticationSuccess,
    AuthenticationFailed(String),
    ScreenFrameReceived(Vec<u8>),
    InputEventSent,
    Error(String),
}

/// A frame read from the host's socket.
#[derive(Debug)]
pub enum ClientFrame {
    Text(String),
    Binary(Vec<u8>),
    Ping(Vec<u8>),
    Pong(Vec<u8>),
    Close,
}

/// What the caller does for a frame.
#[derive(Debug)]
pub enum ClientAction {
    /// Publish this event.
    Emit(ClientEvent),
    /// Answer a ping with this payload.
    SendPong(Vec<u8>),
    /// Read this text as a protocol message.
    HandleText(String),
    /// Stop reading: the connection is over.
    Stop,
}

pub struct ClientSession {
    is_connected: bool,
    is_authenticated: bool,
}

impl ClientSession {
    pub closed spec fn connected(&self) -> bool {
        self.is_connected
    }

    pub closed spec fn authenticated(&self) -> bool {
        self.is_authenticated
    }

    pub fn new() -> (r: Self)
        ensures
            !r.connected(),
            !r.authenticated(),
    {
        ClientSession { is_connected: false, is_authenticated: false }
    }

    /// The socket to the host is open.
    pub fn on_connected(&mut self) -> (r: ClientEvent)
        ensures
            final(self).connected(),
            final(self).authenticated() == old(self).authenticated(),
            r is Connected,
    {
        self.is_connected = true;
        ClientEvent::Connected
    }

    /// What a frame from the host calls for: a binary frame is a screen
    /// frame, text is a protocol message, a ping is answered with a pong of
    /// the same payload, a pong needs nothing, and a close ends the session.
    pub fn on_client_frame(&mut self, frame: ClientFrame) -> (r: Vec<ClientAction>)
        ensures
            match frame {
                ClientFrame::Binary(data) => r@ == seq![ClientAction::Emit(ClientEvent::ScreenFrameReceived(data))]
                    && final(self).connected() == old(self).connected() && final(self).authenticated() == old(self).authenticated(),
                ClientFrame::Text(t) => r@ == seq![ClientAction::HandleText(t)]
                    && final(self).connected() == old(self).connected() && final(self).authenticated() == old(self).authenticated(),
                ClientFrame::Ping(p) => r@ == seq![ClientAction::SendPong(p)]
                    && final(self).connected() == old(self).connected() && final(self).authenticated() == old(self).authenticated(),
                ClientFrame::Pong(_) => r@.len() == 0
                    && final(self).connected() == old(self).connected() && final(self).authenticated() == old(self).authenticated(),
                ClientFrame::Close => r@ == seq![ClientAction::Emit(ClientEvent::Disconnected), ClientAction::Stop]
                    && !final(self).connected() && !final(self).authenticated(),
            },
    {
        let mut out: Vec<ClientAction> = Vec::new();
        match frame {
            ClientFrame::Binary(data) => out.push(ClientAction::Emit(ClientEvent::ScreenFrameReceived(data))),
            ClientFrame::Text(t) => out.push(ClientAction::HandleText(t)),
            ClientFrame::Ping(p) => out.push(ClientAction::SendPong(p)),
            ClientFrame::Pong(_) => {},
            ClientFrame::Close => {
                self.is_connected = false;
                self.is_authenticated = false;
                out.push(ClientAction::Emit(ClientEvent::Disconnected));
                out.push(ClientAction::Stop);
            },
        }
        proof {
            assert(out@ =~= match frame {
                ClientFrame::Binary(data) => seq![ClientAction::Emit(ClientEvent::ScreenFrameReceived(data))],
                ClientFrame::Text(t) => seq![ClientAction::HandleText(t)],
                ClientFrame::Ping(p) => seq![ClientAction::SendPong(p)],
                ClientFrame::Pong(_) => Seq::empty(),
                ClientFrame::Close => seq![ClientAction::Emit(ClientEvent::Disconnected), ClientAction::Stop],
            });
        }
        out
    }

    /// The host's answer to authentication: success marks the session
    /// authenticated; a refusal reports its reason.
    pub fn on_auth_response(&mut self, success: bool, error: String) -> (r: ClientEvent)
        ensures
            final(self).connected() == old(self).connected(),
            final(self).authenticated() == (old(self).authenticated() || success),
            success ==> r is AuthenticationSuccess,
            !success ==> r == ClientEvent::AuthenticationFailed(error),
    {
        if success {
            self.is_authenticated = true;
            ClientEvent::AuthenticationSuccess
        } else {
            ClientEvent::AuthenticationFailed(error)
        }
    }
}

} // verus!
