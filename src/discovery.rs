//! LAN discovery: the table of peers heard from, kept free of this host's
//! own frames and of duplicate addresses, and the replies a message calls for.
use vstd::prelude::*;
use crate::util::same_text;

verus! {

/// UDP port that discovery listens and broadcasts on.
pub const DISCOVERY_PORT: u16 = 7879;
/// Seconds between two announcements.
pub const BROADCAST_INTERVAL_SECS: u64 = 5;
/// Seconds after which a silent peer is dropped.
pub const DEVICE_TIMEOUT_SECS: u64 = 30;
/// Seconds between two sweeps of the peer table.
pub const SWEEP_INTERVAL_SECS: u64 = 10;

#[derive(Debug, Clone, Copy, PartialEq, Eq, Structural)]
pub enum MessageType {
    Announce,
    Response,
    Goodbye,
    ConnectionRequest,
    ConnectionResponse,
}

#[derive(Debug)]
pub struct DeviceInfo {
    pub device_id: String,
    pub device_name: String,
    pub device_type: String,
    pub version: String,
    pub capabilities: Vec<String>,
    pub server_port: u16,
    pub ip_address: String,
}

pub ghost struct DeviceView {
    pub device_id: Seq<char>,
    pub device_name: Seq<char>,
    pub device_type: Seq<char>,
    pub version: Seq<char>,
    pub capabilities: Seq<Seq<char>>,
    pub server_port: u16,
    pub ip_address: Seq<char>,
}

impl View for DeviceInfo {
    type V = DeviceView;

    open spec fn view(&self) -> DeviceView {
        DeviceView {
            device_id: self.device_id@,
            device_name: self.device_name@,
            device_type: self.device_type@,
            version: self.version@,
            capabilities: texts(self.capabilities@),
            server_port: self.server_port,
            ip_address: self.ip_address@,
        }
    }
}

#[derive(Debug)]
pub struct ConnectionRequestData {
    pub request_id: String,
    pub requester_device_id: String,
    pub requester_name: String,
    pub requester_ip: String,
    pub requested_permissions: Vec<String>,
    pub message: Option<String>,
}

#[derive(Debug)]
pub struct DiscoveryMessage {
    pub message_type: MessageType,
    pub device_info: DeviceInfo,
    /// Seconds since the Unix epoch.
    pub timestamp: u64,
    pub connection_request: Option<ConnectionRequestData>,
}

#[derive(Debug)]
pub struct DiscoveredDevice {
    pub info: DeviceInfo,
    /// Seconds since the Unix epoch.
    pub last_seen: u64,
    /// The socket address the peer was heard from.
    pub address: String,
}

pub ghost struct PeerView {
    pub info: DeviceView,
    pub last_seen: u64,
    pub address: Seq<char>,
}

impl View for DiscoveredDevice {
    type V = PeerView;

    open spec fn view(&self) -> PeerView {
        PeerView { info: self.info@, last_seen: self.last_seen, address: self.address@ }
    }
}

/// What the host does after a message has been handled.
#[derive(Debug)]
pub enum DiscoveryAction {
    /// Nothing: the message was this host's own, or calls for nothing.
    Ignore,
    /// Unicast this reply to the sender's address; the sender was recorded.
    Reply(DiscoveryMessage),
    /// The sender was recorded.
    Recorded,
    /// The sender's record was removed.
    Removed,
    /// Hand this request to the request arbiter.
    Forward(ConnectionRequestData),
}

#[derive(Debug, Clone, Copy, PartialEq, Eq, Structural)]
pub enum DiscoveryError {
    /// No peer with that device id is known.
    DeviceNotFound,
}

/// The characters of each string.
pub open spec fn texts(v: Seq<String>) -> Seq<Seq<char>> {
    v.map_values(|s: String| s@)
}

/// Whether a peer record may stay in the table at time `now`.
pub open spec fn fresh(p: PeerView, now: u64) -> bool {
    now < p.last_seen + DEVICE_TIMEOUT_SECS
}

/// Whether a device is this host, by device id or by address.
pub open spec fn is_self(local: DeviceView, d: DeviceView) -> bool {
    d.device_id == local.device_id || d.ip_address == local.ip_address
}

/// The records that stay when those with device id `id`, and when `by_ip`
/// also those with address `ip`, are dropped.
pub open spec fn kept_after(ip: Seq<char>, id: Seq<char>, by_ip: bool) -> spec_fn(PeerView) -> bool {
    |q: PeerView| (!by_ip || q.info.ip_address != ip) && q.info.device_id != id
}

/// The table after a record `p` arrives: records with its address or its
/// device id are dropped (the newest wins), and `p` is appended.
pub open spec fn with_record(table: Seq<PeerView>, p: PeerView) -> Seq<PeerView> {
    table.filter(kept_after(p.info.ip_address, p.info.device_id, true)).push(p)
}

/// The table after a goodbye from device `id`.
pub open spec fn without_device(table: Seq<PeerView>, id: Seq<char>) -> Seq<PeerView> {
    table.filter(kept_after(Seq::empty(), id, false))
}

pub open spec fn no_self(s: Seq<PeerView>, local: DeviceView) -> bool {
    forall|i: int| 0 <= i < s.len() ==> !is_self(local, #[trigger] s[i].info)
}

pub open spec fn distinct_peers(s: Seq<PeerView>) -> bool {
    forall|i: int, j: int| 0 <= i < j < s.len() ==>
        s[i].info.ip_address != s[j].info.ip_address && s[i].info.device_id != s[j].info.device_id
}

proof fn lemma_filter_keeps_wf(s: Seq<PeerView>, f: spec_fn(PeerView) -> bool, local: DeviceView)
    requires
        no_self(s, local),
        distinct_peers(s),
    ensures
        no_self(s.filter(f), local),
        distinct_peers(s.filter(f)),
    decreases s.len(),
{
    broadcast use vstd::seq_lib::group_filter_ensures;
    if s.len() > 0 {
        let d = s.drop_last();
        assert(no_self(d, local)) by {
            assert forall|i: int| 0 <= i < d.len() implies !is_self(local, #[trigger] d[i].info) by {
                assert(d[i] == s[i]);
            }
        }
        assert(distinct_peers(d)) by {
            assert forall|i: int, j: int| 0 <= i < j < d.len() implies
                d[i].info.ip_address != d[j].info.ip_address && d[i].info.device_id != d[j].info.device_id by {
                assert(d[i] == s[i] && d[j] == s[j]);
            }
        }
        lemma_filter_keeps_wf(d, f, local);
        assert(s =~= d.push(s.last()));
        d.lemma_filter_push(s.last(), f);
        let fd = d.filter(f);
        if f(s.last()) {
            let r = fd.push(s.last());
            assert forall|i: int| 0 <= i < r.len() implies !is_self(local, #[trigger] r[i].info) by {
                if i < fd.len() {
                    assert(r[i] == fd[i]);
                } else {
                    assert(r[i] == s[s.len() - 1]);
                }
            }
            assert forall|i: int, j: int| 0 <= i < j < r.len() implies
                r[i].info.ip_address != r[j].info.ip_address && r[i].info.device_id != r[j].info.device_id by {
                assert(r[i] == fd[i]);
                if j < fd.len() {
                    assert(r[j] == fd[j]);
                } else {
                    assert(fd.contains(fd[i]));
                    d.lemma_filter_contains_rev(f, fd[i]);
                    let k = choose|k: int| 0 <= k < d.len() && d[k] == fd[i];
                    assert(d[k] == s[k]);
                    assert(r[j] == s[s.len() - 1]);
                }
            }
        }
    } else {
        assert(s.filter(f).len() == 0);
    }
}

pub(crate) fn copy_strings(v: &Vec<String>) -> (r: Vec<String>)
    ensures
        texts(r@) == texts(v@),
{
    let mut out: Vec<String> = Vec::new();
    let mut i: usize = 0;
    while i < v.len()
        invariant
            i <= v@.len(),
            out@.len() == i,
            forall|j: int| 0 <= j < i ==> (#[trigger] out@[j])@ == v@[j]@,
        decreases v@.len() - i,
    {
        out.push(crate::util::owned(v[i].as_str()));
        i = i + 1;
    }
    proof {
        assert(texts(out@) =~= texts(v@));
    }
    out
}

pub fn copy_device_info(d: &DeviceInfo) -> (r: DeviceInfo)
    ensures
        r@ == d@,
{
    DeviceInfo {
        device_id: d.device_id.clone(),
        device_name: d.device_name.clone(),
        device_type: d.device_type.clone(),
        version: d.version.clone(),
        capabilities: copy_strings(&d.capabilities),
        server_port: d.server_port,
        ip_address: d.ip_address.clone(),
    }
}

fn copy_peer(p: &DiscoveredDevice) -> (r: DiscoveredDevice)
    ensures
        r@ == p@,
{
    DiscoveredDevice { info: copy_device_info(&p.info), last_seen: p.last_seen, address: p.address.clone() }
}

/// Relies on `uuid::Uuid::new_v4` and its `to_string`: a random identifier
/// in hyphenated form, 36 characters long.
#[verifier::external_body]
pub(crate) fn new_uuid() -> (r: String)
    ensures
        r@.len() == 36,
{
    uuid::Uuid::new_v4().to_string()
}

pub struct NetworkDiscovery {
    device_info: DeviceInfo,
    discovered_devices: Vec<DiscoveredDevice>,
    is_running: bool,
}

impl View for NetworkDiscovery {
    type V = Seq<PeerView>;

    /// The peer table, in order of arrival.
    closed spec fn view(&self) -> Seq<PeerView> {
        self.discovered_devices@.map_values(|d: DiscoveredDevice| d@)
    }
}

impl NetworkDiscovery {
    /// This host's own description.
    pub closed spec fn local(&self) -> DeviceView {
        self.device_info@
    }

    pub closed spec fn running(&self) -> bool {
        self.is_running
    }

    /// No record of this host itself, and at most one record per address
    /// and per device id.
    pub open spec fn wf(&self) -> bool {
        no_self(self@, self.local()) && distinct_peers(self@)
    }

    /// Discovery for this host, stopped, with an empty table.
    pub fn with_device_info(device_info: DeviceInfo) -> (r: Self)
        ensures
            r.wf(),
            r@.len() == 0,
            r.local() == device_info@,
            !r.running(),
    {
        let r = NetworkDiscovery { device_info, discovered_devices: Vec::new(), is_running: false };
        proof {
            assert(r@ =~= Seq::<PeerView>::empty());
        }
        r
    }

    /// Discovery for a host with a fresh random device id.
    pub fn new(device_name: String, server_port: u16, ip_address: String) -> (r: Self)
        ensures
            r.wf(),
            r@.len() == 0,
            r.local().device_name == device_name@,
            r.local().server_port == server_port,
            r.local().ip_address == ip_address@,
            !r.running(),
    {
        let capabilities = vec![
            crate::util::owned("screen_capture"),
            crate::util::owned("input_forwarding"),
            crate::util::owned("file_transfer"),
        ];
        let info = DeviceInfo {
            device_id: new_uuid(),
            device_name,
            device_type: crate::util::owned("AnyViewer"),
            version: crate::util::owned("1.0.0"),
            capabilities,
            server_port,
            ip_address,
        };
        Self::with_device_info(info)
    }

    pub fn device_info(&self) -> (r: &DeviceInfo)
        ensures
            r@ == self.local(),
    {
        &self.device_info
    }

    /// Marks discovery running; true when it was stopped, that is when the
    /// listener, announcer and sweeper are to be started.
    pub fn start(&mut self) -> (r: bool)
        ensures
            r == !old(self).running(),
            final(self).running(),
            final(self)@ == old(self)@,
            final(self).local() == old(self).local(),
    {
        if self.is_running {
            false
        } else {
            self.is_running = true;
            true
        }
    }

    /// Stops discovery and clears the table. When it was running, returns the
    /// goodbye to broadcast; stopping a stopped discovery does nothing.
    pub fn stop(&mut self, now: u64) -> (r: Option<DiscoveryMessage>)
        requires
            old(self).wf(),
        ensures
            final(self).wf(),
            !final(self).running(),
            final(self).local() == old(self).local(),
            old(self).running() ==> final(self)@.len() == 0 && r is Some && r->Some_0.message_type == MessageType::Goodbye
                && r->Some_0.device_info@ == old(self).local() && r->Some_0.timestamp == now && r->Some_0.connection_request is None,
            !old(self).running() ==> r is None && final(self)@ == old(self)@,
    {
        if !self.is_running {
            return None;
        }
        self.is_running = false;
        self.discovered_devices = Vec::new();
        proof {
            assert(self@ =~= Seq::<PeerView>::empty());
        }
        Some(self.message(MessageType::Goodbye, now))
    }

    /// A message of this host.
    pub fn message(&self, message_type: MessageType, now: u64) -> (r: DiscoveryMessage)
        ensures
            r.message_type == message_type,
            r.device_info@ == self.local(),
            r.timestamp == now,
            r.connection_request is None,
    {
        DiscoveryMessage {
            message_type,
            device_info: copy_device_info(&self.device_info),
            timestamp: now,
            connection_request: None,
        }
    }

    /// The announcement to broadcast.
    pub fn announce_message(&self, now: u64) -> (r: DiscoveryMessage)
        ensures
            r.message_type == MessageType::Announce,
            r.device_info@ == self.local(),
            r.timestamp == now,
            r.connection_request is None,
    {
        self.message(MessageType::Announce, now)
    }

    /// Removes the records with device id `id`, and when `by_ip` also those
    /// with address `ip`, keeping the order of the rest.
    fn retain_peers(&mut self, ip: &str, id: &str, by_ip: bool)
        requires
            old(self).wf(),
        ensures
            final(self).wf(),
            final(self).local() == old(self).local(),
            final(self).running() == old(self).running(),
            final(self)@ == old(self)@.filter(kept_after(ip@, id@, by_ip)),
    {
        let ghost orig = self@;
        let mut rest: Vec<DiscoveredDevice> = Vec::new();
        core::mem::swap(&mut rest, &mut self.discovered_devices);
        let ghost n = rest@.len();
        proof {
            assert(rest@.map_values(|d: DiscoveredDevice| d@) =~= orig);
            assert(self@ =~= Seq::<PeerView>::empty());
            assert(orig.subrange(0, 0).filter(kept_after(ip@, id@, by_ip)) =~= Seq::<PeerView>::empty()) by {
                assert(orig.subrange(0, 0) =~= Seq::<PeerView>::empty());
            }
        }
        let ghost i: int = 0;
        while rest.len() > 0
            invariant
                0 <= i <= n,
                orig.len() == n,
                rest@.len() == n - i,
                forall|j: int| 0 <= j < rest@.len() ==> #[trigger] rest@[j]@ == orig[i + j],
                self@ == orig.subrange(0, i).filter(kept_after(ip@, id@, by_ip)),
                self.local() == old(self).local(),
                self.running() == old(self).running(),
            decreases rest@.len(),
        {
            let ghost rest_before = rest@;
            let d = rest.remove(0);
            let ghost before = self@;
            proof {
                assert(d@ == orig[i]);
                assert(orig.subrange(0, i + 1) =~= orig.subrange(0, i).push(orig[i]));
                orig.subrange(0, i).lemma_filter_push(orig[i], kept_after(ip@, id@, by_ip));
            }
            let drop = (by_ip && same_text(d.info.ip_address.as_str(), ip)) || same_text(d.info.device_id.as_str(), id);
            if !drop {
                self.discovered_devices.push(d);
                proof {
                    assert(self@ =~= before.push(d@));
                }
            }
            proof {
                assert forall|j: int| 0 <= j < rest@.len() implies #[trigger] rest@[j]@ == orig[i + 1 + j] by {
                    assert(rest@[j] == rest_before[j + 1]);
                }
                i = i + 1;
            }
        }
        proof {
            assert(orig.subrange(0, n as int) =~= orig);
            lemma_filter_keeps_wf(orig, kept_after(ip@, id@, by_ip), self.local());
        }
    }

    /// Keeps the records heard from within the timeout, in order.
    fn retain_fresh(&mut self, now: u64)
        requires
            old(self).wf(),
        ensures
            final(self).wf(),
            final(self).local() == old(self).local(),
            final(self).running() == old(self).running(),
            final(self)@ == old(self)@.filter(|q: PeerView| fresh(q, now)),
    {
        let ghost orig = self@;
        let mut rest: Vec<DiscoveredDevice> = Vec::new();
        core::mem::swap(&mut rest, &mut self.discovered_devices);
        let ghost n = rest@.len();
        proof {
            assert(rest@.map_values(|d: DiscoveredDevice| d@) =~= orig);
            assert(self@ =~= Seq::<PeerView>::empty());
            assert(orig.subrange(0, 0).filter(|q: PeerView| fresh(q, now)) =~= Seq::<PeerView>::empty()) by {
                assert(orig.subrange(0, 0) =~= Seq::<PeerView>::empty());
            }
        }
        let ghost i: int = 0;
        while rest.len() > 0
            invariant
                0 <= i <= n,
                orig.len() == n,
                rest@.len() == n - i,
                forall|j: int| 0 <= j < rest@.len() ==> #[trigger] rest@[j]@ == orig[i + j],
                self@ == orig.subrange(0, i).filter(|q: PeerView| fresh(q, now)),
                self.local() == old(self).local(),
                self.running() == old(self).running(),
            decreases rest@.len(),
        {
            let ghost rest_before = rest@;
            let d = rest.remove(0);
            let ghost before = self@;
            proof {
                assert(d@ == orig[i]);
                assert(orig.subrange(0, i + 1) =~= orig.subrange(0, i).push(orig[i]));
                orig.subrange(0, i).lemma_filter_push(orig[i], |q: PeerView| fresh(q, now));
            }
            if (now as u128) < (d.last_seen as u128) + (DEVICE_TIMEOUT_SECS as u128) {
                self.discovered_devices.push(d);
                proof {
                    assert(self@ =~= before.push(d@));
                }
            }
            proof {
                assert forall|j: int| 0 <= j < rest@.len() implies #[trigger] rest@[j]@ == orig[i + 1 + j] by {
                    assert(rest@[j] == rest_before[j + 1]);
                }
                i = i + 1;
            }
        }
        proof {
            assert(orig.subrange(0, n as int) =~= orig);
            lemma_filter_keeps_wf(orig, |q: PeerView| fresh(q, now), self.local());
        }
    }

    /// Records a peer heard from at `now`: a record with the same address or
    /// device id is replaced by the new one.
    pub fn add_discovered_device(&mut self, info: DeviceInfo, address: String, now: u64)
        requires
            old(self).wf(),
            !is_self(old(self).local(), info@),
        ensures
            final(self).wf(),
            final(self).local() == old(self).local(),
            final(self).running() == old(self).running(),
            final(self)@ == with_record(old(self)@, PeerView { info: info@, last_seen: now, address: address@ }),
    {
        self.retain_peers(info.ip_address.as_str(), info.device_id.as_str(), true);
        let ghost before = self@;
        let ghost p = PeerView { info: info@, last_seen: now, address: address@ };
        self.discovered_devices.push(DiscoveredDevice { info, last_seen: now, address });
        proof {
            broadcast use vstd::seq_lib::group_filter_ensures;
            assert(self@ =~= before.push(p));
            assert forall|i: int| 0 <= i < self@.len() implies !is_self(self.local(), #[trigger] self@[i].info) by {
                if i < before.len() {
                    assert(self@[i] == before[i]);
                }
            }
            assert forall|i: int, j: int| 0 <= i < j < self@.len() implies
                self@[i].info.ip_address != self@[j].info.ip_address && self@[i].info.device_id != self@[j].info.device_id by {
                assert(self@[i] == before[i]);
                if j < before.len() {
                    assert(self@[j] == before[j]);
                } else {
                    assert(kept_after(p.info.ip_address, p.info.device_id, true)(before[i]));
                }
            }
        }
    }

    /// Handles one message heard from `address` at time `now`. Messages of
    /// this host itself, by device id or by address, are ignored. An announce
    /// is recorded and answered; a response is recorded; a goodbye removes
    /// the sender; a connection request is handed on.
    pub fn handle_message(&mut self, message: DiscoveryMessage, address: String, now: u64) -> (r: DiscoveryAction)
        requires
            old(self).wf(),
        ensures
            final(self).wf(),
            final(self).local() == old(self).local(),
            final(self).running() == old(self).running(),
            is_self(old(self).local(), message.device_info@) ==> r is Ignore && final(self)@ == old(self)@,
            !is_self(old(self).local(), message.device_info@) ==> match message.message_type {
                MessageType::Announce => {
                    &&& final(self)@ == with_record(old(self)@, PeerView { info: message.device_info@, last_seen: now, address: address@ })
                    &&& r matches DiscoveryAction::Reply(m)
                    &&& m.message_type == MessageType::Response
                    &&& m.device_info@ == old(self).local()
                    &&& m.timestamp == now
                    &&& m.connection_request is None
                },
                MessageType::Response => {
                    &&& final(self)@ == with_record(old(self)@, PeerView { info: message.device_info@, last_seen: now, address: address@ })
                    &&& r is Recorded
                },
                MessageType::Goodbye => {
                    &&& final(self)@ == without_device(old(self)@, message.device_info@.device_id)
                    &&& r is Removed
                },
                MessageType::ConnectionRequest => {
                    &&& final(self)@ == old(self)@
                    &&& match message.connection_request {
                        Some(d) => r == DiscoveryAction::Forward(d),
                        None => r is Ignore,
                    }
                },
                MessageType::ConnectionResponse => final(self)@ == old(self)@ && r is Ignore,
            },
    {
        if same_text(message.device_info.device_id.as_str(), self.device_info.device_id.as_str())
            || same_text(message.device_info.ip_address.as_str(), self.device_info.ip_address.as_str()) {
            return DiscoveryAction::Ignore;
        }
        match message.message_type {
            MessageType::Announce => {
                let reply = self.message(MessageType::Response, now);
                self.add_discovered_device(message.device_info, address, now);
                DiscoveryAction::Reply(reply)
            },
            MessageType::Response => {
                self.add_discovered_device(message.device_info, address, now);
                DiscoveryAction::Recorded
            },
            MessageType::Goodbye => {
                let empty = crate::util::owned("");
                self.retain_peers(empty.as_str(), message.device_info.device_id.as_str(), false);
                proof {
                    assert(kept_after(empty@, message.device_info@.device_id, false) =~= kept_after(Seq::empty(), message.device_info@.device_id, false));
                }
                DiscoveryAction::Removed
            },
            MessageType::ConnectionRequest => match message.connection_request {
                Some(d) => DiscoveryAction::Forward(d),
                None => DiscoveryAction::Ignore,
            },
            MessageType::ConnectionResponse => DiscoveryAction::Ignore,
        }
    }

    /// Drops the records not heard from within the timeout. Returns the
    /// table as it now stands when that changed it.
    pub fn sweep(&mut self, now: u64) -> (r: Option<Vec<DiscoveredDevice>>)
        requires
            old(self).wf(),
        ensures
            final(self).wf(),
            final(self).local() == old(self).local(),
            final(self).running() == old(self).running(),
            final(self)@ == old(self)@.filter(|q: PeerView| fresh(q, now)),
            r is Some <==> final(self)@.len() != old(self)@.len(),
            r is Some ==> r->Some_0@.map_values(|d: DiscoveredDevice| d@) == final(self)@,
    {
        let before = self.discovered_devices.len();
        self.retain_fresh(now);
        if self.discovered_devices.len() != before {
            Some(self.get_discovered_devices())
        } else {
            None
        }
    }

    /// Copies of the records, in order of arrival.
    pub fn get_discovered_devices(&self) -> (r: Vec<DiscoveredDevice>)
        ensures
            r@.map_values(|d: DiscoveredDevice| d@) == self@,
    {
        let mut out: Vec<DiscoveredDevice> = Vec::new();
        let mut i: usize = 0;
        while i < self.discovered_devices.len()
            invariant
                i <= self.discovered_devices@.len(),
                out@.len() == i,
                forall|j: int| 0 <= j < i ==> (#[trigger] out@[j])@ == self.discovered_devices@[j]@,
            decreases self.discovered_devices@.len() - i,
        {
            out.push(copy_peer(&self.discovered_devices[i]));
            i = i + 1;
        }
        proof {
            assert(out@.map_values(|d: DiscoveredDevice| d@) =~= self@);
        }
        out
    }

    /// The address of the known peer with this device id and the request
    /// message to send it there.
    pub fn send_connection_request(&self, target_device_id: &str, request_data: ConnectionRequestData, now: u64)
        -> (r: Result<(String, DiscoveryMessage), DiscoveryError>)
        ensures
            r is Err <==> forall|i: int| 0 <= i < self@.len() ==> self@[i].info.device_id != target_device_id@,
            match r {
                Ok((address, m)) => {
                    &&& exists|i: int| 0 <= i < self@.len() && self@[i].info.device_id == target_device_id@ && self@[i].address == address@
                    &&& m.message_type == MessageType::ConnectionRequest
                    &&& m.device_info@ == self.local()
                    &&& m.timestamp == now
                    &&& m.connection_request == Some(request_data)
                },
                Err(e) => e == DiscoveryError::DeviceNotFound,
            },
    {
        let mut i: usize = 0;
        while i < self.discovered_devices.len()
            invariant
                i <= self.discovered_devices@.len(),
                forall|j: int| 0 <= j < i ==> self@[j].info.device_id != target_device_id@,
            decreases self.discovered_devices@.len() - i,
        {
            assert(self@[i as int] == self.discovered_devices@[i as int]@);
            if same_text(self.discovered_devices[i].info.device_id.as_str(), target_device_id) {
                let address = self.discovered_devices[i].address.clone();
                let m = DiscoveryMessage {
                    message_type: MessageType::ConnectionRequest,
                    device_info: copy_device_info(&self.device_info),
                    timestamp: now,
                    connection_request: Some(request_data),
                };
                return Ok((address, m));
            }
            i = i + 1;
        }
        Err(DiscoveryError::DeviceNotFound)
    }
}

} // verus!

