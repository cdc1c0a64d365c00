//! Grants of capabilities to connections, with expiry, revocation and
//! runtime checks, and the requests that lead to them.
use vstd::prelude::*;
use crate::util::same_text;

verus! {

#[derive(Debug, Clone, Copy, PartialEq, Eq, Structural)]
pub enum Permission {
    ScreenView,
    InputControl,
    FileTransfer,
    Clipboard,
    AudioAccess,
    SystemInfo,
}

#[derive(Debug)]
pub struct DeviceInfo {
    pub name: String,
    pub os: String,
    pub version: String,
    pub ip_address: Option<String>,
}

#[derive(Debug)]
pub struct PermissionGrant {
    pub connection_id: String,
    pub permissions: Vec<Permission>,
    /// Seconds since the Unix epoch.
    pub granted_at: u64,
    /// Seconds since the Unix epoch; `None` for a grant without end.
    pub expires_at: Option<u64>,
    pub device_info: DeviceInfo,
}

/// What a grant says, as the contracts speak of it.
pub ghost struct GrantView {
    pub permissions: Seq<Permission>,
    pub granted_at: u64,
    pub expires_at: Option<u64>,
}

impl View for PermissionGrant {
    type V = GrantView;

    open spec fn view(&self) -> GrantView {
        GrantView { permissions: self.permissions@, granted_at: self.granted_at, expires_at: self.expires_at }
    }
}

#[derive(Debug, Clone, Copy, PartialEq, Eq, Structural)]
pub struct PermissionStats {
    pub active_connections: usize,
    pub pending_requests: usize,
    pub total_granted_sessions: u64,
    pub total_denied_requests: u64,
}

/// The grant held last under a connection id, if any.
pub open spec fn grant_in(s: Seq<PermissionGrant>, c: Seq<char>) -> Option<GrantView>
    decreases s.len(),
{
    if s.len() == 0 {
        None
    } else if s.last().connection_id@ == c {
        Some(s.last()@)
    } else {
        grant_in(s.drop_last(), c)
    }
}

pub open spec fn unique_connections(s: Seq<PermissionGrant>) -> bool {
    forall|i: int, j: int| 0 <= i < j < s.len() ==> s[i].connection_id@ != s[j].connection_id@
}

/// Whether a grant has run out at time `now`: it has an end and `now` is past it.
pub open spec fn expired_at(g: GrantView, now: u64) -> bool {
    g.expires_at is Some && now > g.expires_at->Some_0
}

/// Whether a grant lets its connection use a capability at time `now`.
pub open spec fn allows(g: Option<GrantView>, p: Permission, now: u64) -> bool {
    match g {
        None => false,
        Some(g) => !expired_at(g, now) && g.permissions.contains(p),
    }
}

/// When a grant made at `now` for `minutes` ends, in seconds; the largest
/// time there is if the sum does not fit.
pub open spec fn expiry_of(now: u64, minutes: Option<u32>) -> Option<u64> {
    match minutes {
        None => None,
        Some(m) => Some(if now + m * 60 > u64::MAX { u64::MAX } else { (now + m * 60) as u64 }),
    }
}

/// The grant that `grant_permission` stores.
pub open spec fn new_grant(permissions: Seq<Permission>, now: u64, minutes: Option<u32>) -> GrantView {
    GrantView { permissions, granted_at: now, expires_at: expiry_of(now, minutes) }
}

/// A grant made at `t` for `minutes` lets its connection use exactly the
/// capabilities it names until its end, and none after it.
pub proof fn lemma_grant_then_check(permissions: Seq<Permission>, t: u64, minutes: Option<u32>, p: Permission, now: u64)
    ensures
        (minutes is None || now < t + minutes->Some_0 * 60) ==>
            allows(Some(new_grant(permissions, t, minutes)), p, now) == permissions.contains(p),
        expired_at(new_grant(permissions, t, minutes), now) ==> !allows(Some(new_grant(permissions, t, minutes)), p, now),
{
}

proof fn lemma_grant_in_none(s: Seq<PermissionGrant>, c: Seq<char>)
    requires
        forall|i: int| 0 <= i < s.len() ==> s[i].connection_id@ != c,
    ensures
        grant_in(s, c) is None,
    decreases s.len(),
{
    if s.len() > 0 {
        lemma_grant_in_none(s.drop_last(), c);
    }
}

proof fn lemma_grant_in_at(s: Seq<PermissionGrant>, i: int)
    requires
        unique_connections(s),
        0 <= i < s.len(),
    ensures
        grant_in(s, s[i].connection_id@) == Some(s[i]@),
    decreases s.len(),
{
    if i < s.len() - 1 {
        lemma_grant_in_at(s.drop_last(), i);
    }
}

proof fn lemma_grant_in_remove(s: Seq<PermissionGrant>, i: int)
    requires
        unique_connections(s),
        0 <= i < s.len(),
    ensures
        unique_connections(s.remove(i)),
        forall|k: Seq<char>| #[trigger] grant_in(s.remove(i), k) == if k == s[i].connection_id@ { None } else { grant_in(s, k) },
    decreases s.len(),
{
    let r = s.remove(i);
    assert forall|a: int, b: int| 0 <= a < b < r.len() implies r[a].connection_id@ != r[b].connection_id@ by {
        let a0 = if a < i { a } else { a + 1 };
        let b0 = if b < i { b } else { b + 1 };
        assert(r[a] == s[a0] && r[b] == s[b0]);
    }
    if i == s.len() - 1 {
        assert(r =~= s.drop_last());
        assert forall|k: Seq<char>| #[trigger] grant_in(r, k) == if k == s[i].connection_id@ { None } else { grant_in(s, k) } by {
            if k == s[i].connection_id@ {
                assert forall|j: int| 0 <= j < r.len() implies r[j].connection_id@ != k by {
                    assert(r[j] == s[j]);
                }
                lemma_grant_in_none(r, k);
            }
        }
    } else {
        let d = s.drop_last();
        assert(unique_connections(d)) by {
            assert forall|a: int, b: int| 0 <= a < b < d.len() implies d[a].connection_id@ != d[b].connection_id@ by {
                assert(d[a] == s[a] && d[b] == s[b]);
            }
        }
        lemma_grant_in_remove(d, i);
        assert(r.drop_last() =~= d.remove(i));
        assert(r.last() == s.last());
        assert(d[i] == s[i]);
        assert forall|k: Seq<char>| #[trigger] grant_in(r, k) == if k == s[i].connection_id@ { None } else { grant_in(s, k) } by {
            if k == s.last().connection_id@ {
                assert(s[i].connection_id@ != s[s.len() - 1].connection_id@);
            } else {
                assert(grant_in(r, k) == grant_in(d.remove(i), k));
                assert(grant_in(s, k) == grant_in(d, k));
            }
        }
    }
}

fn copy_permissions(v: &Vec<Permission>) -> (r: Vec<Permission>)
    ensures
        r@ == v@,
{
    let mut out: Vec<Permission> = Vec::new();
    let mut i: usize = 0;
    while i < v.len()
        invariant
            i <= v@.len(),
            out@ == v@.subrange(0, i as int),
        decreases v@.len() - i,
    {
        out.push(v[i]);
        i = i + 1;
        proof {
            assert(out@ =~= v@.subrange(0, i as int));
        }
    }
    proof {
        assert(out@ =~= v@);
    }
    out
}

fn copy_device(d: &DeviceInfo) -> (r: DeviceInfo)
    ensures
        r.name@ == d.name@,
        r.os@ == d.os@,
        r.version@ == d.version@,
{
    let ip_address = match &d.ip_address {
        Some(ip) => Some(ip.clone()),
        None => None,
    };
    DeviceInfo { name: d.name.clone(), os: d.os.clone(), version: d.version.clone(), ip_address }
}

fn copy_grant(g: &PermissionGrant) -> (r: PermissionGrant)
    ensures
        r@ == g@,
        r.connection_id@ == g.connection_id@,
{
    PermissionGrant {
        connection_id: g.connection_id.clone(),
        permissions: copy_permissions(&g.permissions),
        granted_at: g.granted_at,
        expires_at: g.expires_at,
        device_info: copy_device(&g.device_info),
    }
}

/// Whether a list of capabilities holds one.
pub fn holds_permission(v: &Vec<Permission>, p: Permission) -> (r: bool)
    ensures
        r == v@.contains(p),
{
    let mut i: usize = 0;
    while i < v.len()
        invariant
            i <= v@.len(),
            forall|j: int| 0 <= j < i ==> v@[j] != p,
        decreases v@.len() - i,
    {
        if v[i] == p {
            assert(v@[i as int] == p);
            return true;
        }
        i = i + 1;
    }
    false
}

#[derive(Debug)]
pub struct PermissionConfig {
    pub require_permission_for_screen_view: bool,
    pub require_permission_for_input_control: bool,
    pub require_permission_for_file_transfer: bool,
    pub auto_deny_after_minutes: u32,
    pub max_concurrent_connections: usize,
    pub enable_whitelist: bool,
    /// Connection ids or device names granted without asking.
    pub whitelisted_devices: Vec<String>,
    pub default_session_duration_minutes: Option<u32>,
}

impl PermissionConfig {
    pub fn default_config() -> (r: Self)
        ensures
            r.require_permission_for_screen_view && r.require_permission_for_input_control,
            r.require_permission_for_file_transfer,
            r.auto_deny_after_minutes == 5 && r.max_concurrent_connections == 3,
            !r.enable_whitelist && r.whitelisted_devices@.len() == 0,
            r.default_session_duration_minutes == Some(60u32),
    {
        PermissionConfig {
            require_permission_for_screen_view: true,
            require_permission_for_input_control: true,
            require_permission_for_file_transfer: true,
            auto_deny_after_minutes: 5,
            max_concurrent_connections: 3,
            enable_whitelist: false,
            whitelisted_devices: Vec::new(),
            default_session_duration_minutes: Some(60),
        }
    }
}

/// A request for capabilities waiting for the user's answer.
#[derive(Debug)]
pub struct PermissionRequest {
    pub id: String,
    pub connection_id: String,
    pub device_name: String,
    pub device_info: DeviceInfo,
    pub requested_permissions: Vec<Permission>,
    /// Seconds since the Unix epoch.
    pub requested_at: u64,
    /// Seconds since the Unix epoch.
    pub expires_at: u64,
}

#[derive(Debug)]
pub enum PermissionResponse {
    Granted { permissions: Vec<Permission>, duration_minutes: Option<u32> },
    Denied { reason: String },
    Expired,
}

#[derive(Debug, Clone, Copy, PartialEq, Eq, Structural)]
pub enum PermissionError {
    /// As many connections as allowed hold grants already.
    TooManyConnections,
    /// No pending request has that id.
    RequestNotFound,
}

/// A pending request as the contracts speak of it.
pub ghost struct PendingEntry {
    pub id: Seq<char>,
    pub connection_id: Seq<char>,
    pub expires_at: u64,
}

/// Seconds a permission request waits for an answer.
pub const PERMISSION_REQUEST_TTL_SECS: u64 = 300;

pub struct PermissionManager {
    config: PermissionConfig,
    pending_requests: Vec<PermissionRequest>,
    active_grants: Vec<PermissionGrant>,
}

impl PermissionManager {
    /// The grant held for a connection, if any.
    pub closed spec fn grant(&self, c: Seq<char>) -> Option<GrantView> {
        grant_in(self.active_grants@, c)
    }

    /// At most one grant per connection.
    pub closed spec fn wf(&self) -> bool {
        unique_connections(self.active_grants@)
    }

    /// How many grants are held.
    pub closed spec fn count(&self) -> nat {
        self.active_grants@.len()
    }

    pub fn new() -> (s: Self)
        ensures
            s.wf(),
            s.count() == 0,
            s.pending().len() == 0,
            forall|c: Seq<char>| s.grant(c) is None,
    {
        PermissionManager { config: PermissionConfig::default_config(), pending_requests: Vec::new(), active_grants: Vec::new() }
    }

    /// The ids of the pending requests, oldest first.
    pub closed spec fn pending(&self) -> Seq<Seq<char>> {
        self.pending_requests@.map_values(|r: PermissionRequest| r.id@)
    }

    /// The pending requests, oldest first.
    pub closed spec fn pending_entries(&self) -> Seq<PendingEntry> {
        self.pending_requests@.map_values(|r: PermissionRequest|
            PendingEntry { id: r.id@, connection_id: r.connection_id@, expires_at: r.expires_at })
    }

    /// What answering the pending request `e` with `response` at `now` does:
    /// past its time the answer is `Expired` and no grant changes; a grant
    /// is stored for the request's connection; any other answer changes no
    /// grant. The answer published is `r`.
    pub open spec fn answered(&self, post: &Self, e: PendingEntry, response: PermissionResponse, now: u64, r: PermissionResponse) -> bool {
        if now > e.expires_at {
            &&& r == PermissionResponse::Expired
            &&& forall|c: Seq<char>| #[trigger] post.grant(c) == self.grant(c)
        } else {
            &&& r == response
            &&& match response {
                PermissionResponse::Granted { permissions, duration_minutes } => {
                    &&& post.grant(e.connection_id) == Some(new_grant(permissions@, now, duration_minutes))
                    &&& forall|c: Seq<char>| c != e.connection_id ==> #[trigger] post.grant(c) == self.grant(c)
                },
                _ => forall|c: Seq<char>| #[trigger] post.grant(c) == self.grant(c),
            }
        }
    }

    pub closed spec fn settings(&self) -> &PermissionConfig {
        &self.config
    }

    /// Whether `name` or `device` is on the whitelist, when it is enabled.
    pub closed spec fn whitelisted(&self, name: Seq<char>, device: Seq<char>) -> bool {
        self.config.enable_whitelist && exists|i: int| 0 <= i < self.config.whitelisted_devices@.len()
            && (#[trigger] self.config.whitelisted_devices@[i])@ == name || self.config.enable_whitelist
            && exists|i: int| 0 <= i < self.config.whitelisted_devices@.len()
            && (#[trigger] self.config.whitelisted_devices@[i])@ == device
    }

    fn on_whitelist(&self, connection_id: &str, device_name: &str) -> (r: bool)
        ensures
            r == self.whitelisted(connection_id@, device_name@),
    {
        if !self.config.enable_whitelist {
            return false;
        }
        let mut i: usize = 0;
        while i < self.config.whitelisted_devices.len()
            invariant
                i <= self.config.whitelisted_devices@.len(),
                self.config.enable_whitelist,
                forall|j: int| 0 <= j < i ==> (#[trigger] self.config.whitelisted_devices@[j])@ != connection_id@
                    && self.config.whitelisted_devices@[j]@ != device_name@,
            decreases self.config.whitelisted_devices@.len() - i,
        {
            let d = self.config.whitelisted_devices[i].as_str();
            if same_text(d, connection_id) || same_text(d, device_name) {
                return true;
            }
            i = i + 1;
        }
        false
    }

    /// Asks for capabilities for a connection at `now`. A whitelisted
    /// connection or device is granted at once for the default duration and
    /// its connection id returned. Otherwise, when as many connections as
    /// allowed hold grants, it fails; else the request waits under a fresh
    /// random id, which is returned.
    pub fn request_permission(
        &mut self,
        connection_id: String,
        device_info: DeviceInfo,
        requested_permissions: Vec<Permission>,
        now: u64,
    ) -> (r: Result<String, PermissionError>)
        requires
            old(self).wf(),
        ensures
            final(self).wf(),
            *final(self).settings() == *old(self).settings(),
            old(self).whitelisted(connection_id@, device_info.name@) ==> {
                &&& r is Ok && r->Ok_0@ == connection_id@
                &&& final(self).grant(connection_id@) == Some(new_grant(requested_permissions@, now,
                    old(self).settings().default_session_duration_minutes))
                &&& final(self).pending() == old(self).pending()
            },
            !old(self).whitelisted(connection_id@, device_info.name@) && old(self).count() >= old(self).settings().max_concurrent_connections ==> {
                &&& r == Err::<String, PermissionError>(PermissionError::TooManyConnections)
                &&& final(self).pending() == old(self).pending()
                &&& forall|c: Seq<char>| #[trigger] final(self).grant(c) == old(self).grant(c)
            },
            !old(self).whitelisted(connection_id@, device_info.name@) && old(self).count() < old(self).settings().max_concurrent_connections ==> {
                &&& r is Ok && final(self).pending() == old(self).pending().push(r->Ok_0@)
                &&& forall|c: Seq<char>| #[trigger] final(self).grant(c) == old(self).grant(c)
            },
    {
        if self.on_whitelist(connection_id.as_str(), device_info.name.as_str()) {
            let minutes = self.config.default_session_duration_minutes;
            let ghost before = self.pending();
            let id = self.grant_permission(connection_id, device_info, requested_permissions, minutes, now);
            proof {
                assert(self.pending() == before);
            }
            return Ok(id);
        }
        if self.active_grants.len() >= self.config.max_concurrent_connections {
            return Err(PermissionError::TooManyConnections);
        }
        let id = crate::discovery::new_uuid();
        let result = id.clone();
        let request = PermissionRequest {
            id,
            connection_id,
            device_name: device_info.name.clone(),
            device_info,
            requested_permissions,
            requested_at: now,
            expires_at: now.saturating_add(PERMISSION_REQUEST_TTL_SECS),
        };
        self.pending_requests.push(request);
        proof {
            assert(self.pending() =~= old(self).pending().push(result@));
        }
        Ok(result)
    }

    fn request_position(&self, request_id: &str) -> (r: Option<usize>)
        ensures
            match r {
                Some(i) => i < self.pending_requests@.len() && self.pending_requests@[i as int].id@ == request_id@,
                None => forall|j: int| 0 <= j < self.pending_requests@.len() ==> self.pending_requests@[j].id@ != request_id@,
            },
    {
        let mut i: usize = 0;
        while i < self.pending_requests.len()
            invariant
                i <= self.pending_requests@.len(),
                forall|j: int| 0 <= j < i ==> self.pending_requests@[j].id@ != request_id@,
            decreases self.pending_requests@.len() - i,
        {
            if same_text(self.pending_requests[i].id.as_str(), request_id) {
                return Some(i);
            }
            i = i + 1;
        }
        None
    }

    /// Answers a pending request at `now`; it leaves the pending set. A
    /// request past its time is answered as expired and grants nothing; a
    /// grant is stored for the request's connection. Returns the answer to
    /// publish, or fails when no request has that id.
    pub fn respond_to_request(&mut self, request_id: &str, response: PermissionResponse, now: u64)
        -> (r: Result<PermissionResponse, PermissionError>)
        requires
            old(self).wf(),
        ensures
            final(self).wf(),
            *final(self).settings() == *old(self).settings(),
            r is Err <==> !old(self).pending().contains(request_id@),
            r is Err ==> r == Err::<PermissionResponse, PermissionError>(PermissionError::RequestNotFound)
                && final(self).pending() == old(self).pending(),
            r is Ok ==> exists|i: int| 0 <= i < old(self).pending_entries().len()
                && old(self).pending_entries()[i].id == request_id@
                && final(self).pending() == old(self).pending().remove(i)
                && final(self).pending_entries() == old(self).pending_entries().remove(i)
                && old(self).answered(final(self), old(self).pending_entries()[i], response, now, r->Ok_0),
    {
        let found = self.request_position(request_id);
        if found.is_none() {
            proof {
                assert forall|j: int| 0 <= j < old(self).pending().len() implies old(self).pending()[j] != request_id@ by {
                    assert(old(self).pending()[j] == self.pending_requests@[j].id@);
                }
            }
            return Err(PermissionError::RequestNotFound);
        }
        let i = match found {
            Some(i) => i,
            None => 0,
        };
        proof {
            assert(self.pending()[i as int] == request_id@);
        }
        let ghost entry = self.pending_entries()[i as int];
        let request = self.pending_requests.remove(i);
        proof {
            assert(self.pending() =~= old(self).pending().remove(i as int));
            assert(self.pending_entries() =~= old(self).pending_entries().remove(i as int));
            assert(entry.id == request_id@);
        }
        if now > request.expires_at {
            return Ok(PermissionResponse::Expired);
        }
        match response {
            PermissionResponse::Granted { permissions, duration_minutes } => {
                let kept = copy_permissions(&permissions);
                let ghost pending_now = self.pending();
                let ghost entries_now = self.pending_entries();
                self.grant_permission(request.connection_id, request.device_info, kept, duration_minutes, now);
                proof {
                    assert(self.pending() == pending_now);
                    assert(self.pending_entries() =~= entries_now);
                }
                Ok(PermissionResponse::Granted { permissions, duration_minutes })
            },
            other => Ok(other),
        }
    }

    /// Takes out the requests past their time at `now` and returns their
    /// ids, oldest first; the others stay in order.
    pub fn cleanup_expired_requests(&mut self, now: u64) -> (r: Vec<String>)
        ensures
            forall|c: Seq<char>| #[trigger] final(self).grant(c) == old(self).grant(c),
            final(self).count() == old(self).count(),
            *final(self).settings() == *old(self).settings(),
            final(self).pending_entries() == old(self).pending_entries().filter(|e: PendingEntry| now <= e.expires_at),
            r@.map_values(|s: String| s@) == old(self).pending_entries().filter(|e: PendingEntry| now > e.expires_at)
                .map_values(|e: PendingEntry| e.id),
    {
        let ghost orig = self.pending_entries();
        let mut rest: Vec<PermissionRequest> = Vec::new();
        core::mem::swap(&mut rest, &mut self.pending_requests);
        let ghost n = rest@.len();
        let mut gone: Vec<String> = Vec::new();
        proof {
            assert(rest@.map_values(|r: PermissionRequest|
                PendingEntry { id: r.id@, connection_id: r.connection_id@, expires_at: r.expires_at }) =~= orig);
            assert(self.pending_entries() =~= Seq::<PendingEntry>::empty());
            assert(orig.subrange(0, 0) =~= Seq::<PendingEntry>::empty());
            assert(gone@.map_values(|s: String| s@) =~= Seq::<Seq<char>>::empty());
        }
        let ghost i: int = 0;
        while rest.len() > 0
            invariant
                0 <= i <= n,
                orig.len() == n,
                rest@.len() == n - i,
                forall|j: int| 0 <= j < rest@.len() ==> #[trigger] rest@[j].id@ == orig[i + j].id
                    && rest@[j].connection_id@ == orig[i + j].connection_id && rest@[j].expires_at == orig[i + j].expires_at,
                self.pending_entries() == orig.subrange(0, i).filter(|e: PendingEntry| now <= e.expires_at),
                gone@.map_values(|s: String| s@) == orig.subrange(0, i).filter(|e: PendingEntry| now > e.expires_at)
                    .map_values(|e: PendingEntry| e.id),
                self.active_grants == old(self).active_grants,
                self.config == old(self).config,
            decreases rest@.len(),
        {
            let ghost rest_before = rest@;
            let q = rest.remove(0);
            let ghost before = self.pending_entries();
            let ghost gone_before = gone@;
            let ghost e = orig[i];
            proof {
                assert(rest_before[0] == q);
                assert(q.id@ == e.id && q.connection_id@ == e.connection_id && q.expires_at == e.expires_at);
                assert(PendingEntry { id: q.id@, connection_id: q.connection_id@, expires_at: q.expires_at } == e);
                assert(orig.subrange(0, i + 1) =~= orig.subrange(0, i).push(e));
                orig.subrange(0, i).lemma_filter_push(e, |e: PendingEntry| now <= e.expires_at);
                orig.subrange(0, i).lemma_filter_push(e, |e: PendingEntry| now > e.expires_at);
            }
            if now > q.expires_at {
                gone.push(q.id);
                proof {
                    assert(orig.subrange(0, i + 1).filter(|e: PendingEntry| now <= e.expires_at)
                        == orig.subrange(0, i).filter(|e: PendingEntry| now <= e.expires_at));
                    assert(orig.subrange(0, i + 1).filter(|e: PendingEntry| now > e.expires_at)
                        == orig.subrange(0, i).filter(|e: PendingEntry| now > e.expires_at).push(e));
                    assert(gone@.map_values(|s: String| s@) =~= gone_before.map_values(|s: String| s@).push(e.id));
                    assert(orig.subrange(0, i).filter(|e: PendingEntry| now > e.expires_at).push(e).map_values(|e: PendingEntry| e.id)
                        =~= orig.subrange(0, i).filter(|e: PendingEntry| now > e.expires_at).map_values(|e: PendingEntry| e.id).push(e.id));
                }
            } else {
                self.pending_requests.push(q);
                proof {
                    assert(self.pending_entries() =~= before.push(e));
                    assert(orig.subrange(0, i + 1).filter(|e: PendingEntry| now <= e.expires_at)
                        == orig.subrange(0, i).filter(|e: PendingEntry| now <= e.expires_at).push(e));
                    assert(orig.subrange(0, i + 1).filter(|e: PendingEntry| now > e.expires_at)
                        == orig.subrange(0, i).filter(|e: PendingEntry| now > e.expires_at));
                }
            }
            proof {
                assert forall|j: int| 0 <= j < rest@.len() implies #[trigger] rest@[j].id@ == orig[i + 1 + j].id
                    && rest@[j].connection_id@ == orig[i + 1 + j].connection_id && rest@[j].expires_at == orig[i + 1 + j].expires_at by {
                    assert(rest@[j] == rest_before[j + 1]);
                }
                i = i + 1;
            }
        }
        proof {
            assert(orig.subrange(0, n as int) =~= orig);
        }
        gone
    }

    pub fn get_permission_stats(&self) -> (r: PermissionStats)
        ensures
            r.active_connections == self.count(),
            r.pending_requests == self.pending().len(),
    {
        PermissionStats {
            active_connections: self.active_grants.len(),
            pending_requests: self.pending_requests.len(),
            total_granted_sessions: 0,
            total_denied_requests: 0,
        }
    }

    pub fn update_config(&mut self, new_config: PermissionConfig)
        ensures
            *final(self).settings() == new_config,
            forall|c: Seq<char>| #[trigger] final(self).grant(c) == old(self).grant(c),
            final(self).count() == old(self).count(),
            final(self).wf() == old(self).wf(),
            final(self).pending() == old(self).pending(),
    {
        self.config = new_config;
    }

    fn position(&self, connection_id: &str) -> (r: Option<usize>)
        ensures
            match r {
                Some(i) => i < self.active_grants@.len() && self.active_grants@[i as int].connection_id@ == connection_id@,
                None => forall|i: int| 0 <= i < self.active_grants@.len() ==> self.active_grants@[i].connection_id@ != connection_id@,
            },
    {
        let mut i: usize = 0;
        while i < self.active_grants.len()
            invariant
                i <= self.active_grants@.len(),
                forall|j: int| 0 <= j < i ==> self.active_grants@[j].connection_id@ != connection_id@,
            decreases self.active_grants@.len() - i,
        {
            if same_text(self.active_grants[i].connection_id.as_str(), connection_id) {
                return Some(i);
            }
            i = i + 1;
        }
        None
    }

    /// Removes and returns the grant of a connection.
    fn take(&mut self, connection_id: &str) -> (r: Option<PermissionGrant>)
        requires
            old(self).wf(),
        ensures
            final(self).wf(),
            match r {
                Some(g) => old(self).grant(connection_id@) == Some(g@) && final(self).count() + 1 == old(self).count()
                    && g.connection_id@ == connection_id@,
                None => old(self).grant(connection_id@) is None && final(self).count() == old(self).count(),
            },
            final(self).grant(connection_id@) is None,
            forall|k: Seq<char>| k != connection_id@ ==> #[trigger] final(self).grant(k) == old(self).grant(k),
            final(self).pending_requests == old(self).pending_requests,
            final(self).config == old(self).config,
    {
        match self.position(connection_id) {
            None => {
                proof {
                    lemma_grant_in_none(self.active_grants@, connection_id@);
                }
                None
            },
            Some(i) => {
                proof {
                    lemma_grant_in_at(self.active_grants@, i as int);
                    lemma_grant_in_remove(self.active_grants@, i as int);
                }
                let g = self.active_grants.remove(i);
                Some(g)
            },
        }
    }

    /// Adds a grant for a connection that holds none.
    fn put(&mut self, g: PermissionGrant)
        requires
            old(self).wf(),
            old(self).grant(g.connection_id@) is None,
        ensures
            final(self).wf(),
            final(self).count() == old(self).count() + 1,
            final(self).grant(g.connection_id@) == Some(g@),
            forall|k: Seq<char>| k != g.connection_id@ ==> #[trigger] final(self).grant(k) == old(self).grant(k),
            final(self).pending_requests == old(self).pending_requests,
            final(self).config == old(self).config,
    {
        let ghost before = self.active_grants@;
        let ghost key = g.connection_id@;
        let ghost view = g@;
        self.active_grants.push(g);
        proof {
            assert(self.active_grants@.drop_last() =~= before);
            assert forall|i: int, j: int| 0 <= i < j < self.active_grants@.len()
                implies self.active_grants@[i].connection_id@ != self.active_grants@[j].connection_id@ by {
                assert(self.active_grants@[i] == before[i]);
                if j < before.len() {
                    assert(self.active_grants@[j] == before[j]);
                } else {
                    lemma_grant_in_at(before, i);
                }
            }
            assert forall|k: Seq<char>| k != key implies #[trigger] grant_in(self.active_grants@, k) == grant_in(before, k) by {
                assert(self.active_grants@.last().connection_id@ == key);
            }
        }
    }

    /// Grants capabilities to a connection, replacing any grant it held.
    pub fn grant_permission(
        &mut self,
        connection_id: String,
        device_info: DeviceInfo,
        permissions: Vec<Permission>,
        duration_minutes: Option<u32>,
        now: u64,
    ) -> (r: String)
        requires
            old(self).wf(),
        ensures
            final(self).wf(),
            r@ == connection_id@,
            final(self).grant(connection_id@) == Some(new_grant(permissions@, now, duration_minutes)),
            forall|k: Seq<char>| k != connection_id@ ==> #[trigger] final(self).grant(k) == old(self).grant(k),
            final(self).count() == old(self).count() + (if old(self).grant(connection_id@) is None { 1int } else { 0int }),
            final(self).pending() == old(self).pending(),
            final(self).pending_entries() == old(self).pending_entries(),
            *final(self).settings() == *old(self).settings(),
    {
        let _ = self.take(connection_id.as_str());
        let expires_at = match duration_minutes {
            None => None,
            Some(m) => Some(now.saturating_add((m as u64) * 60)),
        };
        let result = connection_id.clone();
        let g = PermissionGrant { connection_id, permissions, granted_at: now, expires_at, device_info };
        self.put(g);
        result
    }

    /// Whether a connection may use a capability at time `now`: false
    /// without a grant, after the grant's end, or when the grant lacks it.
    pub fn check_permission(&self, connection_id: &str, permission: Permission, now: u64) -> (r: bool)
        requires
            self.wf(),
        ensures
            r == allows(self.grant(connection_id@), permission, now),
    {
        match self.position(connection_id) {
            None => {
                proof {
                    lemma_grant_in_none(self.active_grants@, connection_id@);
                }
                false
            },
            Some(i) => {
                proof {
                    lemma_grant_in_at(self.active_grants@, i as int);
                }
                let g = &self.active_grants[i];
                match g.expires_at {
                    Some(e) => {
                        if now > e {
                            return false;
                        }
                    },
                    None => {},
                }
                holds_permission(&g.permissions, permission)
            },
        }
    }

    /// Revokes the given capabilities of a connection, or all of them when
    /// none are given; a grant left empty is removed. Returns the
    /// capabilities removed, or `None` when the connection held no grant.
    pub fn revoke_permissions(&mut self, connection_id: &str, permissions: Option<Vec<Permission>>) -> (r: Option<Vec<Permission>>)
        requires
            old(self).wf(),
        ensures
            final(self).wf(),
            forall|k: Seq<char>| k != connection_id@ ==> #[trigger] final(self).grant(k) == old(self).grant(k),
            match old(self).grant(connection_id@) {
                None => r is None && final(self).grant(connection_id@) is None,
                Some(g) => r is Some && match permissions {
                    None => {
                        &&& final(self).grant(connection_id@) is None
                        &&& r->Some_0@ == g.permissions
                    },
                    Some(ps) => {
                        let left = g.permissions.filter(|p: Permission| !ps@.contains(p));
                        &&& r->Some_0@ == g.permissions.filter(|p: Permission| ps@.contains(p))
                        &&& (left.len() == 0 ==> final(self).grant(connection_id@) is None)
                        &&& (left.len() > 0 ==> final(self).grant(connection_id@) == Some(GrantView { permissions: left, ..g }))
                    },
                },
            },
    {
        let taken = self.take(connection_id);
        match taken {
            None => None,
            Some(g) => match permissions {
                None => Some(g.permissions),
                Some(ps) => {
                    let mut left: Vec<Permission> = Vec::new();
                    let mut removed: Vec<Permission> = Vec::new();
                    let mut i: usize = 0;
                    while i < g.permissions.len()
                        invariant
                            i <= g.permissions@.len(),
                            left@ == g.permissions@.subrange(0, i as int).filter(|p: Permission| !ps@.contains(p)),
                            removed@ == g.permissions@.subrange(0, i as int).filter(|p: Permission| ps@.contains(p)),
                        decreases g.permissions@.len() - i,
                    {
                        let p = g.permissions[i];
                        proof {
                            assert(g.permissions@.subrange(0, i + 1) =~= g.permissions@.subrange(0, i as int).push(p));
                            g.permissions@.subrange(0, i as int).lemma_filter_push(p, |p: Permission| !ps@.contains(p));
                            g.permissions@.subrange(0, i as int).lemma_filter_push(p, |p: Permission| ps@.contains(p));
                        }
                        if holds_permission(&ps, p) {
                            removed.push(p);
                        } else {
                            left.push(p);
                        }
                        i = i + 1;
                    }
                    proof {
                        assert(g.permissions@.subrange(0, i as int) =~= g.permissions@);
                    }
                    if left.len() > 0 {
                        let kept = PermissionGrant {
                            connection_id: g.connection_id,
                            permissions: left,
                            granted_at: g.granted_at,
                            expires_at: g.expires_at,
                            device_info: g.device_info,
                        };
                        self.put(kept);
                    }
                    Some(removed)
                },
            },
        }
    }

    /// Removes every grant that has run out at time `now` and returns the
    /// connection ids whose grants were removed.
    pub fn cleanup_expired(&mut self, now: u64) -> (r: Vec<String>)
        requires
            old(self).wf(),
        ensures
            final(self).wf(),
            forall|k: Seq<char>| #[trigger] final(self).grant(k) == match old(self).grant(k) {
                Some(g) => if expired_at(g, now) { None } else { Some(g) },
                None => None,
            },
            forall|k: Seq<char>| (exists|i: int| 0 <= i < r@.len() && r@[i]@ == k) <==>
                (old(self).grant(k) is Some && expired_at(old(self).grant(k)->Some_0, now)),
    {
        let ghost orig = self.active_grants@;
        let mut kept: Vec<PermissionGrant> = Vec::new();
        let mut gone: Vec<String> = Vec::new();
        let mut i: usize = 0;
        while i < self.active_grants.len()
            invariant
                self.active_grants@ == orig,
                unique_connections(orig),
                i <= orig.len(),
                unique_connections(kept@),
                forall|j: int| 0 <= j < kept@.len() ==> exists|m: int| 0 <= m < i && orig[m].connection_id@ == (#[trigger] kept@[j]).connection_id@,
                forall|k: Seq<char>| #[trigger] grant_in(kept@, k) == match grant_in(orig.subrange(0, i as int), k) {
                    Some(g) => if expired_at(g, now) { None } else { Some(g) },
                    None => None,
                },
                forall|k: Seq<char>| (exists|j: int| 0 <= j < gone@.len() && gone@[j]@ == k) <==>
                    (grant_in(orig.subrange(0, i as int), k) is Some && expired_at(grant_in(orig.subrange(0, i as int), k)->Some_0, now)),
            decreases orig.len() - i,
        {
            let g = copy_grant(&self.active_grants[i]);
            let ghost pre = orig.subrange(0, i as int);
            let ghost next = orig.subrange(0, i + 1);
            proof {
                assert(next.drop_last() =~= pre);
                assert(next.last() == orig[i as int]);
                assert forall|j: int| 0 <= j < pre.len() implies pre[j].connection_id@ != orig[i as int].connection_id@ by {
                    assert(pre[j] == orig[j]);
                }
                lemma_grant_in_none(pre, orig[i as int].connection_id@);
            }
            let expired = match g.expires_at {
                Some(e) => now > e,
                None => false,
            };
            let ghost kept_before = kept@;
            let ghost gone_before = gone@;
            let ghost key = orig[i as int].connection_id@;
            proof {
                assert forall|k: Seq<char>| #[trigger] grant_in(next, k) == (if k == key { Some(orig[i as int]@) } else { grant_in(pre, k) }) by {
                }
            }
            if expired {
                gone.push(g.connection_id);
                proof {
                    assert forall|k: Seq<char>| (exists|j: int| 0 <= j < gone@.len() && gone@[j]@ == k) <==>
                        (grant_in(next, k) is Some && expired_at(grant_in(next, k)->Some_0, now)) by {
                        if exists|j: int| 0 <= j < gone@.len() && gone@[j]@ == k {
                            let j = choose|j: int| 0 <= j < gone@.len() && gone@[j]@ == k;
                            if j < gone_before.len() {
                                assert(gone_before[j] == gone@[j]);
                            }
                        }
                        if k != key && grant_in(pre, k) is Some && expired_at(grant_in(pre, k)->Some_0, now) {
                            let j = choose|j: int| 0 <= j < gone_before.len() && gone_before[j]@ == k;
                            assert(gone@[j] == gone_before[j]);
                        }
                        if k == key {
                            assert(gone@[gone_before.len() as int]@ == k);
                        }
                    }
                }
            } else {
                proof {
                    assert forall|j: int| 0 <= j < kept@.len() implies kept@[j].connection_id@ != key by {
                        let m = choose|m: int| 0 <= m < i && orig[m].connection_id@ == kept@[j].connection_id@;
                        assert(orig[m].connection_id@ != orig[i as int].connection_id@);
                    }
                    lemma_grant_in_none(kept@, key);
                }
                kept.push(g);
                proof {
                    assert(kept@.drop_last() =~= kept_before);
                    assert forall|a: int, b: int| 0 <= a < b < kept@.len() implies kept@[a].connection_id@ != kept@[b].connection_id@ by {
                        assert(kept@[a] == kept_before[a]);
                        if b < kept_before.len() {
                            assert(kept@[b] == kept_before[b]);
                        }
                    }
                    assert forall|j: int| 0 <= j < kept@.len() implies exists|m: int| 0 <= m < i + 1 && orig[m].connection_id@ == (#[trigger] kept@[j]).connection_id@ by {
                        if j < kept_before.len() {
                            assert(kept@[j] == kept_before[j]);
                            let m = choose|m: int| 0 <= m < i && orig[m].connection_id@ == kept_before[j].connection_id@;
                            assert(orig[m].connection_id@ == kept@[j].connection_id@);
                        } else {
                            assert(kept@[j] == g);
                            assert(orig[i as int].connection_id@ == kept@[j].connection_id@);
                        }
                    }
                    assert forall|k: Seq<char>| #[trigger] grant_in(kept@, k) == (if k == key { Some(g@) } else { grant_in(kept_before, k) }) by {
                    }
                }
            }
            i = i + 1;
        }
        proof {
            assert(orig.subrange(0, orig.len() as int) =~= orig);
        }
        self.active_grants = kept;
        gone
    }

    /// Copies of the grants held.
    pub fn get_active_grants(&self) -> (r: Vec<PermissionGrant>)
        requires
            self.wf(),
        ensures
            r@.len() == self.count(),
            forall|i: int| 0 <= i < r@.len() ==> self.grant(#[trigger] r@[i].connection_id@) == Some(r@[i]@),
    {
        let mut out: Vec<PermissionGrant> = Vec::new();
        let mut i: usize = 0;
        while i < self.active_grants.len()
            invariant
                i <= self.active_grants@.len(),
                out@.len() == i,
                forall|j: int| 0 <= j < i ==> out@[j]@ == self.active_grants@[j]@ && out@[j].connection_id@ == self.active_grants@[j].connection_id@,
            decreases self.active_grants@.len() - i,
        {
            out.push(copy_grant(&self.active_grants[i]));
            i = i + 1;
        }
        proof {
            assert forall|i: int| 0 <= i < out@.len() implies self.grant(#[trigger] out@[i].connection_id@) == Some(out@[i]@) by {
                lemma_grant_in_at(self.active_grants@, i);
            }
        }
        out
    }

    pub fn active_count(&self) -> (r: usize)
        ensures
            r == self.count(),
    {
        self.active_grants.len()
    }
}

} // verus!
