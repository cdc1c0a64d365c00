//! The direct transport's registry of live connections: who is connected,
//! when each was last heard from, and which have gone silent. Sockets and
//! framing are the caller's.
use vstd::prelude::*;
use crate::util::same_text;

verus! {

/// Seconds between two keepalives.
pub const HEARTBEAT_INTERVAL_SECS: u64 = 30;

#[derive(Debug, Clone, Copy, PartialEq, Eq, Structural)]
pub enum P2PConnectionStatus {
    Disconnected,
    Connecting,
    Connected,
    Failed,
}

#[derive(Debug)]
pub struct P2PConnection {
    /// The key the connection is registered under.
    pub key: String,
    /// The session id of the host this connection belongs to.
    pub connection_id: String,
    pub peer_address: String,
    pub is_authenticated: bool,
    /// Seconds since the Unix epoch.
    pub connected_at: u64,
    /// When the peer was last heard from, in seconds since the Unix epoch.
    pub last_ping: Option<u64>,
}

pub ghost struct LinkView {
    pub key: Seq<char>,
    pub connected_at: u64,
    pub last_ping: Option<u64>,
}

impl View for P2PConnection {
    type V = LinkView;

    open spec fn view(&self) -> LinkView {
        LinkView { key: self.key@, connected_at: self.connected_at, last_ping: self.last_ping }
    }
}

#[derive(Debug)]
pub enum P2PEvent {
    ConnectionEstablished(String, String),
    ConnectionLost(String),
}

/// What the registry does to its links.
pub ghost enum Sweep {
    /// The link with this key was heard from at this time.
    Heard(Seq<char>, u64),
    /// The link with this key closed.
    Closed(Seq<char>),
    /// Links silent for longer than the timeout at this time go.
    Silent(u64, u64),
}

/// When a link was last heard from: its last keepalive, else its opening.
pub open spec fn last_heard(l: LinkView) -> u64 {
    match l.last_ping {
        Some(t) => t,
        None => l.connected_at,
    }
}

/// A link after a sweep step, or `None` when it goes.
pub open spec fn swept(l: LinkView, s: Sweep) -> Option<LinkView> {
    match s {
        Sweep::Heard(k, now) => if l.key == k { Some(LinkView { last_ping: Some(now), ..l }) } else { Some(l) },
        Sweep::Closed(k) => if l.key == k { None } else { Some(l) },
        Sweep::Silent(now, timeout) => if last_heard(l) as int + timeout < now { None } else { Some(l) },
    }
}

/// The links after a sweep, in order.
pub open spec fn sweep_all(s: Seq<LinkView>, sw: Sweep) -> Seq<LinkView>
    decreases s.len(),
{
    if s.len() == 0 {
        Seq::empty()
    } else {
        let rest = sweep_all(s.drop_last(), sw);
        match swept(s.last(), sw) {
            Some(l) => rest.push(l),
            None => rest,
        }
    }
}

/// The keys of the links that a sweep removes, in order.
pub open spec fn swept_out(s: Seq<LinkView>, sw: Sweep) -> Seq<Seq<char>>
    decreases s.len(),
{
    if s.len() == 0 {
        Seq::empty()
    } else {
        let rest = swept_out(s.drop_last(), sw);
        match swept(s.last(), sw) {
            Some(_) => rest,
            None => rest.push(s.last().key),
        }
    }
}

pub struct P2PRegistry {
    active_connections: Vec<P2PConnection>,
}

impl View for P2PRegistry {
    type V = Seq<LinkView>;

    closed spec fn view(&self) -> Seq<LinkView> {
        self.active_connections@.map_values(|c: P2PConnection| c@)
    }
}

impl P2PRegistry {
    pub fn new() -> (r: Self)
        ensures
            r@.len() == 0,
    {
        let r = P2PRegistry { active_connections: Vec::new() };
        proof {
            assert(r@ =~= Seq::<LinkView>::empty());
        }
        r
    }

    fn sweep(&mut self, key: &str, mode: u8, now: u64, timeout: u64) -> (r: Vec<String>)
        requires
            mode <= 2,
        ensures
            final(self)@ == sweep_all(old(self)@, if mode == 0 { Sweep::Heard(key@, now) } else if mode == 1 { Sweep::Closed(key@) } else { Sweep::Silent(now, timeout) }),
            r@.map_values(|s: String| s@) == swept_out(old(self)@, if mode == 0 { Sweep::Heard(key@, now) } else if mode == 1 { Sweep::Closed(key@) } else { Sweep::Silent(now, timeout) }),
    {
        let ghost sw = if mode == 0 { Sweep::Heard(key@, now) } else if mode == 1 { Sweep::Closed(key@) } else { Sweep::Silent(now, timeout) };
        let ghost orig = self@;
        let mut rest: Vec<P2PConnection> = Vec::new();
        core::mem::swap(&mut rest, &mut self.active_connections);
        let ghost n = rest@.len();
        let mut gone: Vec<String> = Vec::new();
        proof {
            assert(rest@.map_values(|c: P2PConnection| c@) =~= orig);
            assert(self@ =~= Seq::<LinkView>::empty());
            assert(orig.subrange(0, 0) =~= Seq::<LinkView>::empty());
            assert(gone@.map_values(|s: String| s@) =~= Seq::<Seq<char>>::empty());
        }
        let ghost i: int = 0;
        while rest.len() > 0
            invariant
                0 <= i <= n,
                mode <= 2,
                orig.len() == n,
                rest@.len() == n - i,
                forall|j: int| 0 <= j < rest@.len() ==> #[trigger] rest@[j]@ == orig[i + j],
                self@ == sweep_all(orig.subrange(0, i), sw),
                gone@.map_values(|s: String| s@) == swept_out(orig.subrange(0, i), sw),
                sw == (if mode == 0 { Sweep::Heard(key@, now) } else if mode == 1 { Sweep::Closed(key@) } else { Sweep::Silent(now, timeout) }),
            decreases rest@.len(),
        {
            let ghost rest_before = rest@;
            let c = rest.remove(0);
            let ghost before = self@;
            let ghost gone_before = gone@;
            proof {
                assert(c@ == orig[i]);
                assert(orig.subrange(0, i + 1).drop_last() =~= orig.subrange(0, i));
                assert(orig.subrange(0, i + 1).last() == orig[i]);
            }
            let heard = match c.last_ping {
                Some(t) => t,
                None => c.connected_at,
            };
            let silent: bool = mode == 2 && (heard as u128) + (timeout as u128) < (now as u128);
            proof {
                assert(mode == 2 ==> (silent <==> (last_heard(c@) as int + timeout < now)));
            }
            if mode == 0 {
                if same_text(c.key.as_str(), key) {
                    let updated = P2PConnection { last_ping: Some(now), ..c };
                    let ghost v = updated@;
                    self.active_connections.push(updated);
                    proof {
                        assert(self@ =~= before.push(v));
                        assert(swept(orig[i], sw) == Some(v));
                    }
                } else {
                    let ghost v = c@;
                    self.active_connections.push(c);
                    proof {
                        assert(self@ =~= before.push(v));
                        assert(swept(orig[i], sw) == Some(v));
                    }
                }
            } else if mode == 1 && same_text(c.key.as_str(), key) {
                gone.push(c.key);
                proof {
                    assert(gone@.map_values(|s: String| s@) =~= gone_before.map_values(|s: String| s@).push(orig[i].key));
                    assert(swept(orig[i], sw) is None);
                }
            } else if silent {
                gone.push(c.key);
                proof {
                    assert(gone@.map_values(|s: String| s@) =~= gone_before.map_values(|s: String| s@).push(orig[i].key));
                    assert(last_heard(orig[i]) == heard);
                    assert(swept(orig[i], sw) is None);
                }
            } else {
                let ghost v = c@;
                self.active_connections.push(c);
                proof {
                    assert(self@ =~= before.push(v));
                    assert(last_heard(orig[i]) == heard);
                    assert(v == orig[i]);
                    if mode == 1 {
                        assert(sw == Sweep::Closed(key@));
                        assert(orig[i].key != key@);
                    } else {
                        assert(sw == Sweep::Silent(now, timeout));
                        assert(!(last_heard(orig[i]) as int + timeout < now));
                    }
                    assert(swept(orig[i], sw) == Some(v));
                }
            }
            proof {
                assert forall|j: int| 0 <= j < rest@.len() implies #[trigger] rest@[j]@ == orig[i + 1 + j] by {
                    assert(rest@[j] == rest_before[j + 1]);
                }
                i = i + 1;
            }
        }
        proof {
            assert(orig.subrange(0, n as int) =~= orig);
        }
        gone
    }

    /// Registers a connection opened at `now`; one with the same key is
    /// replaced. Returns the event to publish.
    pub fn add_connection(&mut self, key: String, connection_id: String, peer_address: String, now: u64) -> (r: P2PEvent)
        ensures
            final(self)@ == sweep_all(old(self)@, Sweep::Closed(key@)).push(LinkView { key: key@, connected_at: now, last_ping: None }),
            r matches P2PEvent::ConnectionEstablished(k, a) && k@ == key@ && a@ == peer_address@,
    {
        let _ = self.sweep(key.as_str(), 1, now, 0);
        let event = P2PEvent::ConnectionEstablished(key.clone(), peer_address.clone());
        let ghost before = self@;
        let c = P2PConnection { key, connection_id, peer_address, is_authenticated: false, connected_at: now, last_ping: None };
        let ghost v = c@;
        self.active_connections.push(c);
        proof {
            assert(self@ =~= before.push(v));
        }
        event
    }

    /// The peer with this key was heard from at `now` (a keepalive or a pong).
    pub fn on_heartbeat(&mut self, key: &str, now: u64)
        ensures
            final(self)@ == sweep_all(old(self)@, Sweep::Heard(key@, now)),
    {
        let _ = self.sweep(key, 0, now, 0);
    }

    /// The connection with this key closed; the event to publish when it
    /// was registered.
    pub fn remove_connection(&mut self, key: &str) -> (r: Option<P2PEvent>)
        ensures
            final(self)@ == sweep_all(old(self)@, Sweep::Closed(key@)),
            r is Some <==> swept_out(old(self)@, Sweep::Closed(key@)).len() > 0,
    {
        let gone = self.sweep(key, 1, 0, 0);
        proof {
            assert(gone@.map_values(|s: String| s@).len() == gone@.len());
        }
        if gone.len() > 0 {
            Some(P2PEvent::ConnectionLost(crate::util::owned(key)))
        } else {
            None
        }
    }

    /// Tears down the links not heard from for more than `timeout` seconds
    /// at `now`, returning one lost-connection event each.
    pub fn remove_silent(&mut self, now: u64, timeout: u64) -> (r: Vec<P2PEvent>)
        ensures
            final(self)@ == sweep_all(old(self)@, Sweep::Silent(now, timeout)),
            r@.len() == swept_out(old(self)@, Sweep::Silent(now, timeout)).len(),
    {
        let gone = self.sweep("", 2, now, timeout);
        let mut events: Vec<P2PEvent> = Vec::new();
        let mut i: usize = 0;
        while i < gone.len()
            invariant
                i <= gone@.len(),
                events@.len() == i,
            decreases gone@.len() - i,
        {
            events.push(P2PEvent::ConnectionLost(gone[i].clone()));
            i = i + 1;
        }
        proof {
            assert(gone@.map_values(|s: String| s@).len() == gone@.len());
        }
        events
    }

    pub fn connection_count(&self) -> (r: usize)
        ensures
            r == self@.len(),
    {
        self.active_connections.len()
    }

    /// Forgets every connection, as when hosting stops.
    pub fn clear(&mut self)
        ensures
            final(self)@.len() == 0,
    {
        self.active_connections = Vec::new();
        proof {
            assert(self@ =~= Seq::<LinkView>::empty());
        }
    }
}

} // verus!
