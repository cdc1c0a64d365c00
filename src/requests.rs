//! The arbiter of inbound connection requests: each request waits in the
//! pending set until it is answered, cancelled, or runs out.
use vstd::prelude::*;
use crate::util::same_text;
use crate::discovery::{ConnectionRequestData, copy_strings, new_uuid, texts};

verus! {

/// Seconds a request waits for an answer.
pub const REQUEST_TIMEOUT_SECS: u64 = 60;
/// Seconds between two sweeps of the pending set.
pub const CLEANUP_INTERVAL_SECS: u64 = 30;

#[derive(Debug)]
pub struct IncomingConnectionRequest {
    pub request_id: String,
    pub requester_device_id: String,
    pub requester_name: String,
    pub requester_ip: String,
    pub requested_permissions: Vec<String>,
    pub message: Option<String>,
    /// Seconds since the Unix epoch.
    pub timestamp: u64,
}

#[derive(Debug)]
pub struct ConnectionRequestResponse {
    pub request_id: String,
    pub accepted: bool,
    pub granted_permissions: Vec<String>,
    pub session_duration_minutes: Option<u32>,
    pub denial_reason: Option<String>,
}

#[derive(Debug)]
pub struct PendingRequest {
    pub request: IncomingConnectionRequest,
    /// Seconds since the Unix epoch.
    pub expires_at: u64,
}

#[derive(Debug, Clone, Copy, PartialEq, Eq, Structural)]
pub struct ConnectionRequestStats {
    pub pending_requests: usize,
    pub total_requests_today: usize,
    pub accepted_requests_today: usize,
    pub denied_requests_today: usize,
}

#[derive(Debug, Clone, Copy, PartialEq, Eq, Structural)]
pub enum RequestError {
    /// No pending request has that id.
    NotFound,
}

pub ghost struct RequestView {
    pub request_id: Seq<char>,
    pub requester_device_id: Seq<char>,
    pub requester_name: Seq<char>,
    pub requester_ip: Seq<char>,
    pub requested_permissions: Seq<Seq<char>>,
    pub message: Option<Seq<char>>,
    pub timestamp: u64,
}

pub ghost struct PendingView {
    pub request: RequestView,
    pub expires_at: u64,
}

impl View for IncomingConnectionRequest {
    type V = RequestView;

    open spec fn view(&self) -> RequestView {
        RequestView {
            request_id: self.request_id@,
            requester_device_id: self.requester_device_id@,
            requester_name: self.requester_name@,
            requester_ip: self.requester_ip@,
            requested_permissions: texts(self.requested_permissions@),
            message: match self.message {
                Some(m) => Some(m@),
                None => None,
            },
            timestamp: self.timestamp,
        }
    }
}

impl View for PendingRequest {
    type V = PendingView;

    open spec fn view(&self) -> PendingView {
        PendingView { request: self.request@, expires_at: self.expires_at }
    }
}

/// Whether a pending request stays when the request `id` is taken out
/// (`by_id`), or else when those run out at `now` are.
pub open spec fn stays(id: Seq<char>, by_id: bool, now: u64) -> spec_fn(PendingView) -> bool {
    |q: PendingView| if by_id { q.request.request_id != id } else { now < q.expires_at }
}

pub open spec fn leaves(id: Seq<char>, by_id: bool, now: u64) -> spec_fn(PendingView) -> bool {
    |q: PendingView| !stays(id, by_id, now)(q)
}

pub open spec fn ids_of(s: Seq<PendingView>) -> Seq<Seq<char>> {
    s.map_values(|q: PendingView| q.request.request_id)
}

/// The request that the discovery payload `d` describes, received at `now`.
pub open spec fn request_from(d: ConnectionRequestData, now: u64) -> RequestView {
    RequestView {
        request_id: d.request_id@,
        requester_device_id: d.requester_device_id@,
        requester_name: d.requester_name@,
        requester_ip: d.requester_ip@,
        requested_permissions: texts(d.requested_permissions@),
        message: match d.message {
            Some(m) => Some(m@),
            None => None,
        },
        timestamp: now,
    }
}

fn copy_message(m: &Option<String>) -> (r: Option<String>)
    ensures
        match m {
            Some(s) => r is Some && r->Some_0@ == s@,
            None => r is None,
        },
{
    match m {
        Some(s) => Some(s.clone()),
        None => None,
    }
}

fn copy_request(q: &IncomingConnectionRequest) -> (r: IncomingConnectionRequest)
    ensures
        r@ == q@,
{
    IncomingConnectionRequest {
        request_id: q.request_id.clone(),
        requester_device_id: q.requester_device_id.clone(),
        requester_name: q.requester_name.clone(),
        requester_ip: q.requester_ip.clone(),
        requested_permissions: copy_strings(&q.requested_permissions),
        message: copy_message(&q.message),
        timestamp: q.timestamp,
    }
}

pub struct ConnectionRequestManager {
    pending_requests: Vec<PendingRequest>,
    request_timeout: u64,
}

impl View for ConnectionRequestManager {
    type V = Seq<PendingView>;

    /// The pending requests, oldest first.
    closed spec fn view(&self) -> Seq<PendingView> {
        self.pending_requests@.map_values(|p: PendingRequest| p@)
    }
}

impl ConnectionRequestManager {
    /// Seconds a request waits for an answer.
    pub closed spec fn timeout(&self) -> u64 {
        self.request_timeout
    }

    pub fn new() -> (r: Self)
        ensures
            r@.len() == 0,
            r.timeout() == REQUEST_TIMEOUT_SECS,
    {
        let r = ConnectionRequestManager { pending_requests: Vec::new(), request_timeout: REQUEST_TIMEOUT_SECS };
        proof {
            assert(r@ =~= Seq::<PendingView>::empty());
        }
        r
    }

    /// Takes out the requests that `stays` rejects and returns their ids,
    /// keeping the order of the rest.
    fn sift(&mut self, id: &str, by_id: bool, now: u64) -> (r: Vec<String>)
        ensures
            final(self)@ == old(self)@.filter(stays(id@, by_id, now)),
            final(self).timeout() == old(self).timeout(),
            texts(r@) == ids_of(old(self)@.filter(leaves(id@, by_id, now))),
    {
        let ghost orig = self@;
        let mut rest: Vec<PendingRequest> = Vec::new();
        core::mem::swap(&mut rest, &mut self.pending_requests);
        let ghost n = rest@.len();
        let mut gone: Vec<String> = Vec::new();
        proof {
            assert(rest@.map_values(|d: PendingRequest| d@) =~= orig);
            assert(self@ =~= Seq::<PendingView>::empty());
            assert(orig.subrange(0, 0) =~= Seq::<PendingView>::empty());
            assert(orig.subrange(0, 0).filter(stays(id@, by_id, now)) =~= Seq::<PendingView>::empty());
            assert(orig.subrange(0, 0).filter(leaves(id@, by_id, now)) =~= Seq::<PendingView>::empty());
            assert(texts(gone@) =~= ids_of(Seq::<PendingView>::empty()));
        }
        let ghost i: int = 0;
        while rest.len() > 0
            invariant
                0 <= i <= n,
                orig.len() == n,
                rest@.len() == n - i,
                forall|j: int| 0 <= j < rest@.len() ==> #[trigger] rest@[j]@ == orig[i + j],
                self@ == orig.subrange(0, i).filter(stays(id@, by_id, now)),
                texts(gone@) == ids_of(orig.subrange(0, i).filter(leaves(id@, by_id, now))),
                self.timeout() == old(self).timeout(),
            decreases rest@.len(),
        {
            let ghost rest_before = rest@;
            let d = rest.remove(0);
            let ghost before = self@;
            let ghost gone_before = gone@;
            proof {
                assert(d@ == orig[i]);
                assert(orig.subrange(0, i + 1) =~= orig.subrange(0, i).push(orig[i]));
                orig.subrange(0, i).lemma_filter_push(orig[i], stays(id@, by_id, now));
                orig.subrange(0, i).lemma_filter_push(orig[i], leaves(id@, by_id, now));
            }
            let keep = if by_id { !same_text(d.request.request_id.as_str(), id) } else { now < d.expires_at };
            if keep {
                self.pending_requests.push(d);
                proof {
                    assert(self@ =~= before.push(d@));
                }
            } else {
                gone.push(d.request.request_id);
                proof {
                    assert(texts(gone@) =~= texts(gone_before).push(d@.request.request_id));
                    assert(ids_of(orig.subrange(0, i).filter(leaves(id@, by_id, now)).push(orig[i]))
                        =~= ids_of(orig.subrange(0, i).filter(leaves(id@, by_id, now))).push(orig[i].request.request_id));
                }
            }
            proof {
                assert forall|j: int| 0 <= j < rest@.len() implies #[trigger] rest@[j]@ == orig[i + 1 + j] by {
                    assert(rest@[j] == rest_before[j + 1]);
                }
                i = i + 1;
            }
        }
        proof {
            assert(orig.subrange(0, n as int) =~= orig);
        }
        gone
    }

    fn insert(&mut self, request: IncomingConnectionRequest, now: u64) -> (r: IncomingConnectionRequest)
        ensures
            r@ == request@,
            final(self).timeout() == old(self).timeout(),
            final(self)@ == old(self)@.filter(stays(request@.request_id, true, now)).push(
                PendingView { request: request@, expires_at: now.saturating_add(old(self).timeout()) }),
    {
        let _ = self.sift(request.request_id.as_str(), true, now);
        let event = copy_request(&request);
        let ghost before = self@;
        let expires_at = now.saturating_add(self.request_timeout);
        self.pending_requests.push(PendingRequest { request, expires_at });
        proof {
            assert(self@ =~= before.push(PendingView { request: event@, expires_at }));
        }
        event
    }

    /// Records a request received through discovery at `now`; a pending
    /// request with the same id is replaced. Returns the request to publish.
    pub fn handle_incoming_discovery_request(&mut self, request_data: ConnectionRequestData, now: u64)
        -> (r: IncomingConnectionRequest)
        ensures
            r@ == request_from(request_data, now),
            final(self).timeout() == old(self).timeout(),
            final(self)@ == old(self)@.filter(stays(request_data.request_id@, true, now)).push(
                PendingView { request: request_from(request_data, now), expires_at: now.saturating_add(old(self).timeout()) }),
    {
        let request = IncomingConnectionRequest {
            request_id: request_data.request_id,
            requester_device_id: request_data.requester_device_id,
            requester_name: request_data.requester_name,
            requester_ip: request_data.requester_ip,
            requested_permissions: request_data.requested_permissions,
            message: request_data.message,
            timestamp: now,
        };
        self.insert(request, now)
    }

    /// Records a new request under a fresh random id and returns that id.
    pub fn create_connection_request(
        &mut self,
        requester_device_id: String,
        requester_name: String,
        requester_ip: String,
        requested_permissions: Vec<String>,
        message: Option<String>,
        now: u64,
    ) -> (r: String)
        ensures
            final(self).timeout() == old(self).timeout(),
            final(self)@.len() >= 1,
            final(self)@.last().request.request_id == r@,
            final(self)@.last().request.requester_device_id == requester_device_id@,
            final(self)@.last().request.requester_name == requester_name@,
            final(self)@.last().request.requester_ip == requester_ip@,
            final(self)@.last().request.timestamp == now,
            final(self)@.last().expires_at == now.saturating_add(old(self).timeout()),
            final(self)@.drop_last() == old(self)@.filter(stays(r@, true, now)),
    {
        let request_id = new_uuid();
        let result = request_id.clone();
        let request = IncomingConnectionRequest {
            request_id,
            requester_device_id,
            requester_name,
            requester_ip,
            requested_permissions,
            message,
            timestamp: now,
        };
        let _ = self.insert(request, now);
        result
    }

    /// Answers a pending request, which leaves the pending set; the answer
    /// to publish is returned. Fails when no pending request has that id.
    pub fn respond_to_request(
        &mut self,
        request_id: String,
        accepted: bool,
        granted_permissions: Vec<String>,
        session_duration_minutes: Option<u32>,
        denial_reason: Option<String>,
    ) -> (r: Result<ConnectionRequestResponse, RequestError>)
        ensures
            final(self).timeout() == old(self).timeout(),
            final(self)@ == old(self)@.filter(stays(request_id@, true, 0)),
            r is Ok <==> exists|i: int| 0 <= i < old(self)@.len() && old(self)@[i].request.request_id == request_id@,
            match r {
                Ok(resp) => {
                    &&& resp.request_id@ == request_id@
                    &&& resp.accepted == accepted
                    &&& resp.granted_permissions == granted_permissions
                    &&& resp.session_duration_minutes == session_duration_minutes
                    &&& resp.denial_reason == denial_reason
                },
                Err(e) => e == RequestError::NotFound,
            },
    {
        let gone = self.sift(request_id.as_str(), true, 0);
        proof {
            lemma_some_left(old(self)@, request_id@);
            assert(texts(gone@).len() == gone@.len());
            assert(ids_of(old(self)@.filter(leaves(request_id@, true, 0))).len() == old(self)@.filter(leaves(request_id@, true, 0)).len());
        }
        if gone.len() == 0 {
            return Err(RequestError::NotFound);
        }
        Ok(ConnectionRequestResponse {
            request_id,
            accepted,
            granted_permissions,
            session_duration_minutes,
            denial_reason,
        })
    }

    /// Withdraws a pending request. Fails when no pending request has that id.
    pub fn cancel_request(&mut self, request_id: &str) -> (r: Result<(), RequestError>)
        ensures
            final(self).timeout() == old(self).timeout(),
            final(self)@ == old(self)@.filter(stays(request_id@, true, 0)),
            r is Ok <==> exists|i: int| 0 <= i < old(self)@.len() && old(self)@[i].request.request_id == request_id@,
            r is Err ==> r == Err::<(), RequestError>(RequestError::NotFound),
    {
        let gone = self.sift(request_id, true, 0);
        proof {
            lemma_some_left(old(self)@, request_id@);
            assert(texts(gone@).len() == gone@.len());
            assert(ids_of(old(self)@.filter(leaves(request_id@, true, 0))).len() == old(self)@.filter(leaves(request_id@, true, 0)).len());
        }
        if gone.len() == 0 {
            Err(RequestError::NotFound)
        } else {
            Ok(())
        }
    }

    /// Takes out every request run out at `now` and returns their ids, each
    /// once: one expired outcome per request.
    pub fn cleanup_expired(&mut self, now: u64) -> (r: Vec<String>)
        ensures
            final(self).timeout() == old(self).timeout(),
            final(self)@ == old(self)@.filter(|q: PendingView| now < q.expires_at),
            texts(r@) == ids_of(old(self)@.filter(|q: PendingView| now >= q.expires_at)),
    {
        let r = self.sift("", false, now);
        proof {
            assert(stays(""@, false, now) =~= (|q: PendingView| now < q.expires_at));
            assert(leaves(""@, false, now) =~= (|q: PendingView| now >= q.expires_at));
        }
        r
    }

    /// Copies of the pending requests, oldest first.
    pub fn get_pending_requests(&self) -> (r: Vec<IncomingConnectionRequest>)
        ensures
            r@.len() == self@.len(),
            forall|i: int| 0 <= i < r@.len() ==> (#[trigger] r@[i])@ == self@[i].request,
    {
        let mut out: Vec<IncomingConnectionRequest> = Vec::new();
        let mut i: usize = 0;
        while i < self.pending_requests.len()
            invariant
                i <= self.pending_requests@.len(),
                out@.len() == i,
                forall|j: int| 0 <= j < i ==> (#[trigger] out@[j])@ == self@[j].request,
            decreases self.pending_requests@.len() - i,
        {
            out.push(copy_request(&self.pending_requests[i].request));
            i = i + 1;
        }
        out
    }

    pub fn get_stats(&self) -> (r: ConnectionRequestStats)
        ensures
            r.pending_requests == self@.len(),
            r.total_requests_today == 0,
            r.accepted_requests_today == 0,
            r.denied_requests_today == 0,
    {
        ConnectionRequestStats {
            pending_requests: self.pending_requests.len(),
            total_requests_today: 0,
            accepted_requests_today: 0,
            denied_requests_today: 0,
        }
    }
}

/// Once a request has been answered or cancelled, no pending request has
/// its id: a second answer finds nothing and fails.
pub proof fn lemma_answered_once(pending: Seq<PendingView>, id: Seq<char>)
    ensures
        forall|i: int| 0 <= i < pending.filter(stays(id, true, 0)).len()
            ==> (#[trigger] pending.filter(stays(id, true, 0))[i]).request.request_id != id,
        pending.filter(stays(id, true, 0)).filter(leaves(id, true, 0)).len() == 0,
{
    broadcast use vstd::seq_lib::group_filter_ensures;
    let kept = pending.filter(stays(id, true, 0));
    assert forall|i: int| 0 <= i < kept.len() implies (#[trigger] kept[i]).request.request_id != id by {
        assert(stays(id, true, 0)(kept[i]));
    }
    lemma_some_left(kept, id);
}

/// A sweep at a time when every pending request has run out empties the
/// pending set and reports every request, each once and in order.
pub proof fn lemma_sweep_after_expiry(pending: Seq<PendingView>, now: u64)
    requires
        forall|i: int| 0 <= i < pending.len() ==> (#[trigger] pending[i]).expires_at <= now,
    ensures
        pending.filter(|q: PendingView| now < q.expires_at).len() == 0,
        ids_of(pending.filter(|q: PendingView| now >= q.expires_at)) == ids_of(pending),
    decreases pending.len(),
{
    if pending.len() > 0 {
        let d = pending.drop_last();
        assert forall|i: int| 0 <= i < d.len() implies (#[trigger] d[i]).expires_at <= now by {
            assert(d[i] == pending[i]);
        }
        lemma_sweep_after_expiry(d, now);
        assert(pending =~= d.push(pending.last()));
        d.lemma_filter_push(pending.last(), |q: PendingView| now < q.expires_at);
        d.lemma_filter_push(pending.last(), |q: PendingView| now >= q.expires_at);
        assert(pending.last().expires_at <= now);
        assert(ids_of(d.filter(|q: PendingView| now >= q.expires_at).push(pending.last()))
            =~= ids_of(d.filter(|q: PendingView| now >= q.expires_at)).push(pending.last().request.request_id));
        assert(ids_of(pending) =~= ids_of(d).push(pending.last().request.request_id));
    } else {
        assert(pending.filter(|q: PendingView| now < q.expires_at) =~= Seq::<PendingView>::empty()) by {
            reveal(Seq::filter);
        }
        assert(pending.filter(|q: PendingView| now >= q.expires_at) =~= Seq::<PendingView>::empty()) by {
            reveal(Seq::filter);
        }
        assert(ids_of(pending) =~= Seq::<Seq<char>>::empty());
    }
}

proof fn lemma_some_left(s: Seq<PendingView>, id: Seq<char>)
    ensures
        s.filter(leaves(id, true, 0)).len() > 0 <==> exists|i: int| 0 <= i < s.len() && s[i].request.request_id == id,
{
    broadcast use vstd::seq_lib::group_filter_ensures;
    let f = s.filter(leaves(id, true, 0));
    if exists|i: int| 0 <= i < s.len() && s[i].request.request_id == id {
        let i = choose|i: int| 0 <= i < s.len() && s[i].request.request_id == id;
        assert(leaves(id, true, 0)(s[i]));
        assert(f.contains(s[i]));
    }
    if f.len() > 0 {
        assert(f.contains(f[0]));
        s.lemma_filter_contains_rev(leaves(id, true, 0), f[0]);
        assert(leaves(id, true, 0)(f[0]));
    }
}

} // verus!
