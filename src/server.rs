//! The server's authoritative bookkeeping: who owns each buffer, which
//! buffer requests are in flight, and which sessions are awake.
use vstd::prelude::*;

use crate::ids::{ClientId, MonitorId, SessionId};
use crate::ownership::BufferSlot;
use crate::table::{as_map, keep, lookup, lemma_concat_contains, lemma_keep_push, lemma_lookup_absent, lemma_lookup_at, lemma_lookup_keep,
    lemma_lookup_push, lemma_lookup_some, lemma_lookup_update, lemma_prefix_push, lemma_push_contains};

verus! {

broadcast use vstd::seq_lib::group_seq_properties;

/// Owner of a buffer in the server's ledger.
#[derive(Clone, Copy, Debug, PartialEq, Eq, Structural)]
pub enum BufferOwner {
    Client,
    Shift,
}

/// A buffer request forwarded to the renderer and not yet answered.
#[derive(Clone, Copy, Debug, PartialEq, Eq, Structural)]
pub struct PendingBufferRequest {
    pub client_id: ClientId,
    pub session_id: SessionId,
    pub monitor_id: MonitorId,
    pub buffer: BufferSlot,
}

/// The command handed to the renderer for an accepted buffer request.
#[derive(Clone, Copy, Debug, PartialEq, Eq, Structural)]
pub struct SwapBuffers {
    pub monitor_id: MonitorId,
    pub buffer: BufferSlot,
    pub session_id: SessionId,
}

/// Why a buffer request was refused.
#[derive(Clone, Copy, Debug, PartialEq, Eq, Structural)]
pub enum BufferRequestError {
    /// The session is not awake.
    SessionSleeping,
    /// The buffer is not owned by the client.
    OwnershipViolation,
    /// The surface already has a request in flight.
    BufferRequestInflight,
}

impl BufferRequestError {
    /// The protocol error code.
    pub fn code(&self) -> (r: &'static str)
        ensures
            r@ == match self {
                BufferRequestError::SessionSleeping => "session_sleeping"@,
                BufferRequestError::OwnershipViolation => "ownership_violation"@,
                BufferRequestError::BufferRequestInflight => "buffer_request_inflight"@,
            },
    {
        match self {
            BufferRequestError::SessionSleeping => "session_sleeping",
            BufferRequestError::OwnershipViolation => "ownership_violation",
            BufferRequestError::BufferRequestInflight => "buffer_request_inflight",
        }
    }
}

pub type OwnerKey = (SessionId, MonitorId, BufferSlot);

/// The abstract state of the server's ledger.
pub ghost struct ServerModel {
    pub current_session: Option<SessionId>,
    pub loading: Set<SessionId>,
    pub awake: Set<SessionId>,
    pub awake_until: Map<SessionId, u64>,
    pub owners: Map<OwnerKey, BufferOwner>,
    pub pending: Seq<PendingBufferRequest>,
}

/// A buffer the ledger has never seen belongs to its client.
pub open spec fn owner_of(m: ServerModel, key: OwnerKey) -> BufferOwner {
    if m.owners.contains_key(key) {
        m.owners[key]
    } else {
        BufferOwner::Client
    }
}

/// A session is awake if it is in the awake set and is not held awake by a
/// deadline that has passed (the active session never expires).
pub open spec fn is_awake(m: ServerModel, s: SessionId, now: u64) -> bool {
    m.awake.contains(s) && !(m.awake_until.contains_key(s) && m.awake_until[s] <= now && m.current_session
        != Some(s))
}

pub open spec fn same_surface(p: PendingBufferRequest, s: SessionId, mon: MonitorId) -> bool {
    p.session_id == s && p.monitor_id == mon
}

pub open spec fn has_inflight(m: ServerModel, s: SessionId, mon: MonitorId) -> bool {
    exists|i: int| 0 <= i < m.pending.len() && #[trigger] same_surface(m.pending[i], s, mon)
}

pub open spec fn matches_request(p: PendingBufferRequest, s: SessionId, mon: MonitorId, b: BufferSlot) -> bool {
    p.session_id == s && p.monitor_id == mon && p.buffer == b
}

pub open spec fn has_request(m: ServerModel, s: SessionId, mon: MonitorId, b: BufferSlot) -> bool {
    exists|i: int| 0 <= i < m.pending.len() && #[trigger] matches_request(m.pending[i], s, mon, b)
}

/// Index of the oldest pending request for the buffer.
pub open spec fn first_request(m: ServerModel, s: SessionId, mon: MonitorId, b: BufferSlot) -> int {
    choose|i: int|
        0 <= i < m.pending.len() && matches_request(m.pending[i], s, mon, b) && forall|j: int|
            0 <= j < i ==> !#[trigger] matches_request(m.pending[j], s, mon, b)
}

/// At most one request in flight per (session, monitor).
pub open spec fn single_inflight(pending: Seq<PendingBufferRequest>) -> bool {
    forall|i: int, j: int|
        0 <= i < j < pending.len() ==> !#[trigger] same_surface(
            pending[i],
            pending[j].session_id,
            pending[j].monitor_id,
        ) || !#[trigger] same_surface(pending[j], pending[i].session_id, pending[i].monitor_id)
}

/// Under the ledger invariant, two in-flight requests for the same
/// (session, monitor) are the same request.
pub proof fn lemma_single_inflight_unique(pending: Seq<PendingBufferRequest>, i: int, j: int)
    requires
        single_inflight(pending),
        0 <= i < pending.len(),
        0 <= j < pending.len(),
        pending[i].session_id == pending[j].session_id,
        pending[i].monitor_id == pending[j].monitor_id,
    ensures
        i == j,
{
    if i < j {
        assert(same_surface(pending[i], pending[j].session_id, pending[j].monitor_id));
        assert(same_surface(pending[j], pending[i].session_id, pending[i].monitor_id));
    } else if j < i {
        assert(same_surface(pending[j], pending[i].session_id, pending[i].monitor_id));
        assert(same_surface(pending[i], pending[j].session_id, pending[j].monitor_id));
    }
}

/// Sessions whose awake state changed.
pub struct AwakeChanges {
    pub went_to_sleep: Vec<SessionId>,
    pub woke_up: Vec<SessionId>,
}

/// The deadline has passed for a session held awake.
pub open spec fn expired(m: ServerModel, s: SessionId, now: u64) -> bool {
    m.awake_until.contains_key(s) && m.awake_until[s] <= now
}

/// Dropping the deadlines that have passed: the sessions they held awake,
/// but for the active one, go to sleep. Also gives the sessions that did.
pub open spec fn prune_step(m: ServerModel, now: u64) -> (ServerModel, Set<SessionId>) {
    let slept = m.awake.filter(|s: SessionId| expired(m, s, now) && m.current_session != Some(s));
    (
        ServerModel {
            awake: m.awake.difference(slept),
            awake_until: m.awake_until.restrict(m.awake_until.dom().filter(|s: SessionId| !expired(m, s, now))),
            ..m
        },
        slept,
    )
}

/// The sessions that are awake with `active` active: it, every loading
/// session, and every session held awake by a deadline still to come.
pub open spec fn awake_set(m: ServerModel, active: Option<SessionId>, now: u64) -> Set<SessionId> {
    Set::new(
        |s: SessionId|
            active == Some(s) || m.loading.contains(s) || (m.awake_until.contains_key(s) && m.awake_until[s] > now),
    )
}

/// Recomputing the awake set; deadlines of sessions no longer awake are
/// dropped. Also gives the sessions that fell asleep and those that woke.
pub open spec fn awake_step(m: ServerModel, active: Option<SessionId>, now: u64) -> (
    ServerModel,
    Set<SessionId>,
    Set<SessionId>,
) {
    let n = awake_set(m, active, now);
    (
        ServerModel {
            awake: n,
            awake_until: m.awake_until.restrict(m.awake_until.dom().filter(|s: SessionId| n.contains(s))),
            ..m
        },
        m.awake.difference(n),
        n.difference(m.awake),
    )
}

/// `x` occurs among the first `n` items of `s`.
pub open spec fn in_prefix<A>(s: Seq<A>, n: int, x: A) -> bool {
    exists|k: int| 0 <= k < n && #[trigger] s[k] == x
}

pub open spec fn keys_of(s: Seq<(SessionId, u64)>) -> Seq<SessionId> {
    Seq::new(s.len(), |i: int| s[i].0)
}

/// The server's bookkeeping.
pub struct ServerLedger {
    current_session: Option<SessionId>,
    loading_sessions: Vec<SessionId>,
    awake_sessions: Vec<SessionId>,
    awake_until: Vec<(SessionId, u64)>,
    buffer_ownership: Vec<(OwnerKey, BufferOwner)>,
    pending_buffer_requests: Vec<PendingBufferRequest>,
}

impl View for ServerLedger {
    type V = ServerModel;

    closed spec fn view(&self) -> ServerModel {
        ServerModel {
            current_session: self.current_session,
            loading: self.loading_sessions@.to_set(),
            awake: self.awake_sessions@.to_set(),
            awake_until: as_map(self.awake_until@),
            owners: as_map(self.buffer_ownership@),
            pending: self.pending_buffer_requests@,
        }
    }
}

fn contains_session(v: &Vec<SessionId>, s: SessionId) -> (r: bool)
    ensures
        r == v@.contains(s),
{
    let mut i: usize = 0;
    while i < v.len()
        invariant
            i <= v@.len(),
            forall|j: int| 0 <= j < i ==> v@[j] != s,
        decreases v@.len() - i,
    {
        if v[i] == s {
            assert(v@[i as int] == s);
            return true;
        }
        i = i + 1;
    }
    false
}

fn insert_session(v: &mut Vec<SessionId>, s: SessionId)
    ensures
        final(v)@.to_set() == old(v)@.to_set().insert(s),
{
    if !contains_session(v, s) {
        let ghost before = v@;
        v.push(s);
        assert forall|x: SessionId| v@.contains(x) <==> (before.contains(x) || x == s) by {
            lemma_push_contains(before, s, x);
        }
    }
    assert(v@.to_set() =~= old(v)@.to_set().insert(s));
}

fn remove_session(v: &mut Vec<SessionId>, s: SessionId)
    ensures
        final(v)@.to_set() == old(v)@.to_set().remove(s),
{
    let ghost src = v@;
    let mut out: Vec<SessionId> = Vec::new();
    let mut i: usize = 0;
    while i < v.len()
        invariant
            i <= src.len(),
            v@ == src,
            forall|x: SessionId| out@.contains(x) <==> (src.subrange(0, i as int).contains(x) && x != s),
        decreases src.len() - i,
    {
        let e = v[i];
        proof {
            lemma_prefix_push(src, i as int);
        }
        let ghost before = out@;
        if e != s {
            out.push(e);
        }
        proof {
            assert forall|x: SessionId| out@.contains(x) <==> (src.subrange(0, i + 1).contains(x) && x != s) by {
                lemma_push_contains(src.subrange(0, i as int), e, x);
                lemma_push_contains(before, e, x);
            }
        }
        i = i + 1;
    }
    assert(src.subrange(0, src.len() as int) == src);
    *v = out;
    assert(v@.to_set() =~= old(v)@.to_set().remove(s));
}

impl ServerLedger {
    /// The ledger invariant: at most one request in flight per surface.
    pub open spec fn wf(&self) -> bool {
        single_inflight(self@.pending)
    }

    pub fn new() -> (r: ServerLedger)
        ensures
            r.wf(),
            r@ == (ServerModel {
                current_session: None,
                loading: Set::empty(),
                awake: Set::empty(),
                awake_until: Map::empty(),
                owners: Map::empty(),
                pending: Seq::empty(),
            }),
    {
        let r = ServerLedger {
            current_session: None,
            loading_sessions: Vec::new(),
            awake_sessions: Vec::new(),
            awake_until: Vec::new(),
            buffer_ownership: Vec::new(),
            pending_buffer_requests: Vec::new(),
        };
        assert(r@.loading =~= Set::empty());
        assert(r@.awake =~= Set::empty());
        assert(r@.awake_until =~= Map::empty());
        assert(r@.owners =~= Map::empty());
        r
    }

    pub fn current_session(&self) -> (r: Option<SessionId>)
        ensures
            r == self@.current_session,
    {
        self.current_session
    }

    fn find_owner(&self, key: OwnerKey) -> (r: Option<usize>)
        ensures
            match r {
                Some(i) => {
                    &&& i < self.buffer_ownership@.len()
                    &&& self.buffer_ownership@[i as int].0 == key
                    &&& forall|j: int| i < j < self.buffer_ownership@.len() ==> self.buffer_ownership@[j].0 != key
                },
                None => forall|j: int| 0 <= j < self.buffer_ownership@.len() ==> self.buffer_ownership@[j].0 != key,
            },
    {
        let mut i: usize = self.buffer_ownership.len();
        while i > 0
            invariant
                i <= self.buffer_ownership@.len(),
                forall|j: int| i <= j < self.buffer_ownership@.len() ==> self.buffer_ownership@[j].0 != key,
            decreases i,
        {
            i = i - 1;
            let k = self.buffer_ownership[i].0;
            if k.0 == key.0 && k.1 == key.1 && k.2 == key.2 {
                return Some(i);
            }
        }
        None
    }

    /// The owner of a buffer.
    pub fn owner(&self, session_id: SessionId, monitor_id: MonitorId, buffer: BufferSlot) -> (r: BufferOwner)
        ensures
            r == owner_of(self@, (session_id, monitor_id, buffer)),
    {
        let key = (session_id, monitor_id, buffer);
        match self.find_owner(key) {
            Some(i) => {
                proof {
                    lemma_lookup_at(self.buffer_ownership@, i as int, key);
                }
                self.buffer_ownership[i].1
            },
            None => {
                proof {
                    lemma_lookup_absent(self.buffer_ownership@, key);
                }
                BufferOwner::Client
            },
        }
    }

    fn set_owner(&mut self, key: OwnerKey, owner: BufferOwner)
        ensures
            final(self)@ == (ServerModel { owners: old(self)@.owners.insert(key, owner), ..old(self)@ }),
    {
        let ghost before = self.buffer_ownership@;
        match self.find_owner(key) {
            Some(i) => {
                self.buffer_ownership.set(i, (key, owner));
                proof {
                    assert forall|k| #[trigger] lookup(self.buffer_ownership@, k) == if k == key {
                        Some(owner)
                    } else {
                        lookup(before, k)
                    } by {
                        lemma_lookup_update(before, i as int, key, owner, k);
                    }
                }
            },
            None => {
                self.buffer_ownership.push((key, owner));
                proof {
                    assert forall|k| #[trigger] lookup(self.buffer_ownership@, k) == if k == key {
                        Some(owner)
                    } else {
                        lookup(before, k)
                    } by {
                        lemma_lookup_push(before, key, owner, k);
                    }
                }
            },
        }
        assert(self@.owners =~= old(self)@.owners.insert(key, owner));
    }

    /// The deadline until which a session is held awake, if any.
    fn awake_deadline(&self, s: SessionId) -> (r: Option<u64>)
        ensures
            r == (if self@.awake_until.contains_key(s) {
                Some(self@.awake_until[s])
            } else {
                None
            }),
    {
        let mut i: usize = self.awake_until.len();
        while i > 0
            invariant
                i <= self.awake_until@.len(),
                forall|j: int| i <= j < self.awake_until@.len() ==> self.awake_until@[j].0 != s,
            decreases i,
        {
            i = i - 1;
            if self.awake_until[i].0 == s {
                proof {
                    lemma_lookup_at(self.awake_until@, i as int, s);
                }
                return Some(self.awake_until[i].1);
            }
        }
        proof {
            lemma_lookup_absent(self.awake_until@, s);
        }
        None
    }

    /// Whether the session may request buffers at time `now`.
    pub fn is_session_awake(&self, session_id: SessionId, now: u64) -> (r: bool)
        ensures
            r == is_awake(self@, session_id, now),
    {
        if !contains_session(&self.awake_sessions, session_id) {
            return false;
        }
        match self.awake_deadline(session_id) {
            Some(deadline) => {
                if deadline <= now {
                    match self.current_session {
                        Some(c) => c == session_id,
                        None => false,
                    }
                } else {
                    true
                }
            },
            None => true,
        }
    }

    fn has_inflight_request(&self, session_id: SessionId, monitor_id: MonitorId) -> (r: bool)
        ensures
            r == has_inflight(self@, session_id, monitor_id),
    {
        let mut i: usize = 0;
        while i < self.pending_buffer_requests.len()
            invariant
                i <= self@.pending.len(),
                forall|j: int| 0 <= j < i ==> !#[trigger] same_surface(self@.pending[j], session_id, monitor_id),
            decreases self@.pending.len() - i,
        {
            let p = self.pending_buffer_requests[i];
            if p.session_id == session_id && p.monitor_id == monitor_id {
                assert(same_surface(self@.pending[i as int], session_id, monitor_id));
                return true;
            }
            i = i + 1;
        }
        false
    }

    /// Validates a client's buffer request and, if it is accepted, records it
    /// as in flight and returns the command for the renderer. A refused
    /// request changes nothing.
    pub fn buffer_request(
        &mut self,
        client_id: ClientId,
        session_id: SessionId,
        monitor_id: MonitorId,
        buffer: BufferSlot,
        now: u64,
    ) -> (r: Result<SwapBuffers, BufferRequestError>)
        requires
            old(self).wf(),
        ensures
            final(self).wf(),
            !is_awake(old(self)@, session_id, now) ==> r == Err::<SwapBuffers, BufferRequestError>(
                BufferRequestError::SessionSleeping,
            ),
            is_awake(old(self)@, session_id, now) && owner_of(old(self)@, (session_id, monitor_id, buffer))
                != BufferOwner::Client ==> r == Err::<SwapBuffers, BufferRequestError>(
                BufferRequestError::OwnershipViolation,
            ),
            is_awake(old(self)@, session_id, now) && owner_of(old(self)@, (session_id, monitor_id, buffer))
                == BufferOwner::Client && has_inflight(old(self)@, session_id, monitor_id) ==> r == Err::<
                SwapBuffers,
                BufferRequestError,
            >(BufferRequestError::BufferRequestInflight),
            is_awake(old(self)@, session_id, now) && owner_of(old(self)@, (session_id, monitor_id, buffer))
                == BufferOwner::Client && !has_inflight(old(self)@, session_id, monitor_id) ==> r is Ok,
            r is Err ==> final(self)@ == old(self)@,
            r is Ok ==> {
                &&& is_awake(old(self)@, session_id, now)
                &&& owner_of(old(self)@, (session_id, monitor_id, buffer)) == BufferOwner::Client
                &&& !has_inflight(old(self)@, session_id, monitor_id)
                &&& r == Ok::<SwapBuffers, BufferRequestError>(SwapBuffers { monitor_id, buffer, session_id })
                &&& final(self)@ == (ServerModel {
                    pending: old(self)@.pending.push(
                        PendingBufferRequest { client_id, session_id, monitor_id, buffer },
                    ),
                    ..old(self)@
                })
            },
    {
        if !self.is_session_awake(session_id, now) {
            return Err(BufferRequestError::SessionSleeping);
        }
        match self.owner(session_id, monitor_id, buffer) {
            BufferOwner::Client => {},
            BufferOwner::Shift => {
                return Err(BufferRequestError::OwnershipViolation);
            },
        }
        if self.has_inflight_request(session_id, monitor_id) {
            return Err(BufferRequestError::BufferRequestInflight);
        }
        let ghost before = self@.pending;
        let req = PendingBufferRequest { client_id, session_id, monitor_id, buffer };
        self.pending_buffer_requests.push(req);
        proof {
            let p = self@.pending;
            assert forall|i: int, j: int|
                0 <= i < j < p.len() implies !#[trigger] same_surface(
                p[i],
                p[j].session_id,
                p[j].monitor_id,
            ) || !#[trigger] same_surface(p[j], p[i].session_id, p[i].monitor_id) by {
                if j == p.len() - 1 {
                    assert(!same_surface(before[i], session_id, monitor_id));
                } else {
                    assert(p[i] == before[i] && p[j] == before[j]);
                }
            }
        }
        Ok(SwapBuffers { monitor_id, buffer, session_id })
    }

    fn find_request(&self, session_id: SessionId, monitor_id: MonitorId, buffer: BufferSlot) -> (r: Option<usize>)
        ensures
            match r {
                Some(i) => {
                    &&& has_request(self@, session_id, monitor_id, buffer)
                    &&& i == first_request(self@, session_id, monitor_id, buffer)
                    &&& i < self@.pending.len()
                },
                None => !has_request(self@, session_id, monitor_id, buffer),
            },
    {
        let mut i: usize = 0;
        while i < self.pending_buffer_requests.len()
            invariant
                i <= self@.pending.len(),
                forall|j: int| 0 <= j < i ==> !#[trigger] matches_request(self@.pending[j], session_id, monitor_id, buffer),
            decreases self@.pending.len() - i,
        {
            let p = self.pending_buffer_requests[i];
            if p.session_id == session_id && p.monitor_id == monitor_id && p.buffer == buffer {
                proof {
                    assert(matches_request(self@.pending[i as int], session_id, monitor_id, buffer));
                    let f = first_request(self@, session_id, monitor_id, buffer);
                    if f < i {
                        assert(!matches_request(self@.pending[f], session_id, monitor_id, buffer));
                    }
                    if i < f {
                        assert(!matches_request(self@.pending[i as int], session_id, monitor_id, buffer));
                    }
                }
                return Some(i);
            }
            i = i + 1;
        }
        None
    }

    proof fn lemma_remove_keeps_single(p: Seq<PendingBufferRequest>, k: int)
        requires
            single_inflight(p),
            0 <= k < p.len(),
        ensures
            single_inflight(p.remove(k)),
    {
        let q = p.remove(k);
        assert forall|i: int, j: int|
            0 <= i < j < q.len() implies !#[trigger] same_surface(q[i], q[j].session_id, q[j].monitor_id)
            || !#[trigger] same_surface(q[j], q[i].session_id, q[i].monitor_id) by {
            let a = if i < k { i } else { i + 1 };
            let b = if j < k { j } else { j + 1 };
            assert(q[i] == p[a] && q[j] == p[b]);
            assert(!same_surface(p[a], p[b].session_id, p[b].monitor_id) || !same_surface(
                p[b],
                p[a].session_id,
                p[a].monitor_id,
            ));
        }
    }

    /// The renderer accepted a request: it leaves the in-flight list and the
    /// buffer becomes Shift-owned. Returns the client to acknowledge.
    pub fn buffer_request_ack(&mut self, session_id: SessionId, monitor_id: MonitorId, buffer: BufferSlot) -> (r:
        Option<ClientId>)
        requires
            old(self).wf(),
        ensures
            final(self).wf(),
            !has_request(old(self)@, session_id, monitor_id, buffer) ==> r is None && final(self)@ == old(self)@,
            has_request(old(self)@, session_id, monitor_id, buffer) ==> {
                let i = first_request(old(self)@, session_id, monitor_id, buffer);
                &&& r == Some(old(self)@.pending[i].client_id)
                &&& final(self)@ == (ServerModel {
                    pending: old(self)@.pending.remove(i),
                    owners: old(self)@.owners.insert((session_id, monitor_id, buffer), BufferOwner::Shift),
                    ..old(self)@
                })
                &&& owner_of(final(self)@, (session_id, monitor_id, buffer)) == BufferOwner::Shift
            },
    {
        let i = self.find_request(session_id, monitor_id, buffer)?;
        proof {
            Self::lemma_remove_keeps_single(self@.pending, i as int);
        }
        let pending = self.pending_buffer_requests.remove(i);
        self.set_owner((session_id, monitor_id, buffer), BufferOwner::Shift);
        Some(pending.client_id)
    }

    /// The renderer refused a request: it leaves the in-flight list and no
    /// ownership changes. Returns the client to notify.
    pub fn buffer_request_rejected(&mut self, session_id: SessionId, monitor_id: MonitorId, buffer: BufferSlot) -> (r:
        Option<ClientId>)
        requires
            old(self).wf(),
        ensures
            final(self).wf(),
            !has_request(old(self)@, session_id, monitor_id, buffer) ==> r is None && final(self)@ == old(self)@,
            has_request(old(self)@, session_id, monitor_id, buffer) ==> {
                let i = first_request(old(self)@, session_id, monitor_id, buffer);
                &&& r == Some(old(self)@.pending[i].client_id)
                &&& final(self)@ == (ServerModel { pending: old(self)@.pending.remove(i), ..old(self)@ })
            },
    {
        let i = self.find_request(session_id, monitor_id, buffer)?;
        proof {
            Self::lemma_remove_keeps_single(self@.pending, i as int);
        }
        let pending = self.pending_buffer_requests.remove(i);
        Some(pending.client_id)
    }

    /// The renderer released a buffer: it is the client's again.
    pub fn buffer_consumed(&mut self, session_id: SessionId, monitor_id: MonitorId, buffer: BufferSlot)
        requires
            old(self).wf(),
        ensures
            final(self).wf(),
            final(self)@ == (ServerModel {
                owners: old(self)@.owners.insert((session_id, monitor_id, buffer), BufferOwner::Client),
                ..old(self)@
            }),
            owner_of(final(self)@, (session_id, monitor_id, buffer)) == BufferOwner::Client,
    {
        self.set_owner((session_id, monitor_id, buffer), BufferOwner::Client);
    }
}

impl ServerLedger {
    /// Keeps the in-flight requests that `pred` accepts.
    fn retain_requests<F: Fn(&PendingBufferRequest) -> bool>(
        &mut self,
        keep_it: F,
        pred: Ghost<spec_fn(PendingBufferRequest) -> bool>,
    )
        requires
            old(self).wf(),
            forall|p: PendingBufferRequest| keep_it.requires((&p,)),
            forall|p: PendingBufferRequest, r: bool| keep_it.ensures((&p,), r) ==> r == pred@(p),
        ensures
            final(self).wf(),
            final(self)@ == (ServerModel { pending: old(self)@.pending.filter(pred@), ..old(self)@ }),
    {
        let ghost src = self.pending_buffer_requests@;
        let mut out: Vec<PendingBufferRequest> = Vec::new();
        let mut i: usize = 0;
        while i < self.pending_buffer_requests.len()
            invariant
                i <= src.len(),
                *self == *old(self),
                src == self.pending_buffer_requests@,
                single_inflight(src),
                forall|p: PendingBufferRequest| keep_it.requires((&p,)),
                forall|p: PendingBufferRequest, r: bool| keep_it.ensures((&p,), r) ==> r == pred@(p),
                out@ == src.subrange(0, i as int).filter(pred@),
                single_inflight(out@),
                forall|t: int| 0 <= t < out@.len() ==> #[trigger] in_prefix(src, i as int, out@[t]),
            decreases src.len() - i,
        {
            let e = self.pending_buffer_requests[i];
            proof {
                lemma_prefix_push(src, i as int);
                src.subrange(0, i as int).lemma_filter_push(e, pred@);
            }
            let ghost before = out@;
            if keep_it(&e) {
                out.push(e);
                proof {
                    let o = out@;
                    assert forall|a: int, b: int|
                        0 <= a < b < o.len() implies !#[trigger] same_surface(o[a], o[b].session_id, o[b].monitor_id)
                        || !#[trigger] same_surface(o[b], o[a].session_id, o[a].monitor_id) by {
                        if b == o.len() - 1 {
                            assert(in_prefix(src, i as int, before[a]));
                            let k = choose|k: int| 0 <= k < i && #[trigger] src[k] == before[a];
                            assert(o[a] == src[k]);
                            assert(o[b] == src[i as int]);
                        } else {
                            assert(o[a] == before[a] && o[b] == before[b]);
                        }
                    }
                    assert forall|t: int| 0 <= t < o.len() implies #[trigger] in_prefix(src, i + 1, o[t]) by {
                        if t == o.len() - 1 {
                            assert(src[i as int] == o[t]);
                        } else {
                            assert(o[t] == before[t]);
                            assert(in_prefix(src, i as int, before[t]));
                            let k = choose|k: int| 0 <= k < i && #[trigger] src[k] == before[t];
                            assert(src[k] == o[t]);
                        }
                    }
                }
            } else {
                proof {
                    assert forall|t: int| 0 <= t < out@.len() implies #[trigger] in_prefix(src, i + 1, out@[t]) by {
                        assert(in_prefix(src, i as int, out@[t]));
                        let k = choose|k: int| 0 <= k < i && #[trigger] src[k] == out@[t];
                        assert(src[k] == out@[t]);
                    }
                }
            }
            i = i + 1;
        }
        assert(src.subrange(0, src.len() as int) == src);
        self.pending_buffer_requests = out;
    }

    /// Keeps the ownership entries whose key `pred` accepts.
    fn retain_owners<F: Fn(&OwnerKey) -> bool>(&mut self, keep_it: F, pred: Ghost<spec_fn(OwnerKey) -> bool>)
        requires
            forall|k: OwnerKey| keep_it.requires((&k,)),
            forall|k: OwnerKey, r: bool| keep_it.ensures((&k,), r) ==> r == pred@(k),
        ensures
            final(self)@ == (ServerModel {
                owners: old(self)@.owners.restrict(old(self)@.owners.dom().filter(pred@)),
                ..old(self)@
            }),
    {
        let ghost src = self.buffer_ownership@;
        let mut out: Vec<(OwnerKey, BufferOwner)> = Vec::new();
        let mut i: usize = 0;
        while i < self.buffer_ownership.len()
            invariant
                i <= src.len(),
                *self == *old(self),
                src == self.buffer_ownership@,
                forall|k: OwnerKey| keep_it.requires((&k,)),
                forall|k: OwnerKey, r: bool| keep_it.ensures((&k,), r) ==> r == pred@(k),
                out@ == keep(src.subrange(0, i as int), pred@),
            decreases src.len() - i,
        {
            let e = self.buffer_ownership[i];
            proof {
                lemma_prefix_push(src, i as int);
                lemma_keep_push(src.subrange(0, i as int), e, pred@);
            }
            if keep_it(&e.0) {
                out.push(e);
            }
            i = i + 1;
        }
        assert(src.subrange(0, src.len() as int) == src);
        self.buffer_ownership = out;
        proof {
            assert forall|k| #[trigger] lookup(self.buffer_ownership@, k) == if pred@(k) {
                lookup(src, k)
            } else {
                None
            } by {
                lemma_lookup_keep(src, pred@, k);
            }
            assert(self@.owners =~= old(self)@.owners.restrict(old(self)@.owners.dom().filter(pred@)));
        }
    }

    /// Keeps the deadlines of the sessions that `pred` accepts.
    fn retain_deadlines<F: Fn(&SessionId) -> bool>(&mut self, keep_it: F, pred: Ghost<spec_fn(SessionId) -> bool>)
        requires
            forall|k: SessionId| keep_it.requires((&k,)),
            forall|k: SessionId, r: bool| keep_it.ensures((&k,), r) ==> r == pred@(k),
        ensures
            final(self)@ == (ServerModel {
                awake_until: old(self)@.awake_until.restrict(old(self)@.awake_until.dom().filter(pred@)),
                ..old(self)@
            }),
    {
        let ghost src = self.awake_until@;
        let mut out: Vec<(SessionId, u64)> = Vec::new();
        let mut i: usize = 0;
        while i < self.awake_until.len()
            invariant
                i <= src.len(),
                *self == *old(self),
                src == self.awake_until@,
                forall|k: SessionId| keep_it.requires((&k,)),
                forall|k: SessionId, r: bool| keep_it.ensures((&k,), r) ==> r == pred@(k),
                out@ == keep(src.subrange(0, i as int), pred@),
            decreases src.len() - i,
        {
            let e = self.awake_until[i];
            proof {
                lemma_prefix_push(src, i as int);
                lemma_keep_push(src.subrange(0, i as int), e, pred@);
            }
            if keep_it(&e.0) {
                out.push(e);
            }
            i = i + 1;
        }
        assert(src.subrange(0, src.len() as int) == src);
        self.awake_until = out;
        proof {
            assert forall|k| #[trigger] lookup(self.awake_until@, k) == if pred@(k) {
                lookup(src, k)
            } else {
                None
            } by {
                lemma_lookup_keep(src, pred@, k);
            }
            assert(self@.awake_until =~= old(self)@.awake_until.restrict(old(self)@.awake_until.dom().filter(pred@)));
        }
    }

    /// A client linked new framebuffers for a surface: its in-flight request
    /// is dropped and both buffers belong to the client.
    pub fn framebuffer_linked(&mut self, session_id: SessionId, monitor_id: MonitorId)
        requires
            old(self).wf(),
        ensures
            final(self).wf(),
            final(self)@ == (ServerModel {
                pending: old(self)@.pending.filter(
                    |p: PendingBufferRequest| !same_surface(p, session_id, monitor_id),
                ),
                owners: old(self)@.owners.insert((session_id, monitor_id, BufferSlot::Zero), BufferOwner::Client).insert(
                    (session_id, monitor_id, BufferSlot::One),
                    BufferOwner::Client,
                ),
                ..old(self)@
            }),
    {
        let ghost pred = |p: PendingBufferRequest| !same_surface(p, session_id, monitor_id);
        self.retain_requests(
            (|p: &PendingBufferRequest| -> (r: bool)
                ensures
                    r == !same_surface(*p, session_id, monitor_id),
                { !(p.session_id == session_id && p.monitor_id == monitor_id) }),
            Ghost(pred),
        );
        self.set_owner((session_id, monitor_id, BufferSlot::Zero), BufferOwner::Client);
        self.set_owner((session_id, monitor_id, BufferSlot::One), BufferOwner::Client);
    }

    /// A monitor went away: requests and ownership entries for it are dropped.
    pub fn monitor_offline(&mut self, monitor_id: MonitorId)
        requires
            old(self).wf(),
        ensures
            final(self).wf(),
            final(self)@ == (ServerModel {
                pending: old(self)@.pending.filter(|p: PendingBufferRequest| p.monitor_id != monitor_id),
                owners: old(self)@.owners.restrict(
                    old(self)@.owners.dom().filter(|k: OwnerKey| k.1 != monitor_id),
                ),
                ..old(self)@
            }),
    {
        let ghost pp = |p: PendingBufferRequest| p.monitor_id != monitor_id;
        let ghost pk = |k: OwnerKey| k.1 != monitor_id;
        self.retain_requests(
            (|p: &PendingBufferRequest| -> (r: bool)
                ensures
                    r == (p.monitor_id != monitor_id),
                { p.monitor_id != monitor_id }),
            Ghost(pp),
        );
        self.retain_owners(
            (|k: &OwnerKey| -> (r: bool)
                ensures
                    r == (k.1 != monitor_id),
                { k.1 != monitor_id }),
            Ghost(pk),
        );
    }

    /// A client disconnected: everything its session held is dropped.
    /// Returns whether that session was the active one.
    pub fn session_removed(&mut self, client_id: ClientId, session_id: SessionId) -> (r: bool)
        requires
            old(self).wf(),
        ensures
            final(self).wf(),
            r == (old(self)@.current_session == Some(session_id)),
            final(self)@ == (ServerModel {
                loading: old(self)@.loading.remove(session_id),
                awake: old(self)@.awake.remove(session_id),
                awake_until: old(self)@.awake_until.restrict(
                    old(self)@.awake_until.dom().filter(|k: SessionId| k != session_id),
                ),
                owners: old(self)@.owners.restrict(
                    old(self)@.owners.dom().filter(|k: OwnerKey| k.0 != session_id),
                ),
                pending: old(self)@.pending.filter(
                    |p: PendingBufferRequest| p.client_id != client_id && p.session_id != session_id,
                ),
                ..old(self)@
            }),
    {
        remove_session(&mut self.loading_sessions, session_id);
        remove_session(&mut self.awake_sessions, session_id);
        let ghost pd = |k: SessionId| k != session_id;
        let ghost pk = |k: OwnerKey| k.0 != session_id;
        let ghost pp = |p: PendingBufferRequest| p.client_id != client_id && p.session_id != session_id;
        self.retain_deadlines(
            (|k: &SessionId| -> (r: bool)
                ensures
                    r == (*k != session_id),
                { *k != session_id }),
            Ghost(pd),
        );
        self.retain_requests(
            (|p: &PendingBufferRequest| -> (r: bool)
                ensures
                    r == (p.client_id != client_id && p.session_id != session_id),
                { p.client_id != client_id && p.session_id != session_id }),
            Ghost(pp),
        );
        self.retain_owners(
            (|k: &OwnerKey| -> (r: bool)
                ensures
                    r == (k.0 != session_id),
                { k.0 != session_id }),
            Ghost(pk),
        );
        match self.current_session {
            Some(c) => c == session_id,
            None => false,
        }
    }

    /// A normal session was bound to a client and is loading.
    pub fn mark_loading(&mut self, session_id: SessionId)
        requires
            old(self).wf(),
        ensures
            final(self).wf(),
            final(self)@ == (ServerModel { loading: old(self)@.loading.insert(session_id), ..old(self)@ }),
    {
        insert_session(&mut self.loading_sessions, session_id);
    }

    /// A session reported ready and no longer counts as loading.
    pub fn mark_ready(&mut self, session_id: SessionId)
        requires
            old(self).wf(),
        ensures
            final(self).wf(),
            final(self)@ == (ServerModel { loading: old(self)@.loading.remove(session_id), ..old(self)@ }),
    {
        remove_session(&mut self.loading_sessions, session_id);
    }

    /// Holds a session awake for `duration_ms` from `now`; a zero duration
    /// does nothing. Returns whether the session woke up.
    pub fn keep_session_awake_for(&mut self, session_id: SessionId, duration_ms: u64, now: u64) -> (r: bool)
        requires
            old(self).wf(),
        ensures
            final(self).wf(),
            duration_ms == 0 ==> !r && final(self)@ == old(self)@,
            duration_ms > 0 ==> {
                &&& r == !old(self)@.awake.contains(session_id)
                &&& final(self)@ == (ServerModel {
                    awake: old(self)@.awake.insert(session_id),
                    awake_until: old(self)@.awake_until.insert(
                        session_id,
                        if now + duration_ms > u64::MAX {
                            u64::MAX
                        } else {
                            (now + duration_ms) as u64
                        },
                    ),
                    ..old(self)@
                })
            },
    {
        if duration_ms == 0 {
            return false;
        }
        let was_awake = contains_session(&self.awake_sessions, session_id);
        insert_session(&mut self.awake_sessions, session_id);
        let deadline = if now > u64::MAX - duration_ms {
            u64::MAX
        } else {
            now + duration_ms
        };
        let ghost before = self.awake_until@;
        self.awake_until.push((session_id, deadline));
        proof {
            assert forall|k| #[trigger] lookup(self.awake_until@, k) == if k == session_id {
                Some(deadline)
            } else {
                lookup(before, k)
            } by {
                lemma_lookup_push(before, session_id, deadline, k);
            }
            assert(self@.awake_until =~= old(self)@.awake_until.insert(session_id, deadline));
        }
        !was_awake
    }

    /// Drops passed deadlines; the sessions they held awake, but for the
    /// active one, go to sleep and are returned.
    pub fn prune_expired_awake_sessions(&mut self, now: u64) -> (r: Vec<SessionId>)
        requires
            old(self).wf(),
        ensures
            final(self).wf(),
            (final(self)@, r@.to_set()) == prune_step(old(self)@, now),
    {
        let ghost m = self@;
        let ghost src = self.awake_sessions@;
        let ghost e = |s: SessionId| expired(m, s, now) && m.current_session != Some(s);
        let mut stay: Vec<SessionId> = Vec::new();
        let mut slept: Vec<SessionId> = Vec::new();
        let mut i: usize = 0;
        while i < self.awake_sessions.len()
            invariant
                i <= src.len(),
                *self == *old(self),
                m == self@,
                src == self.awake_sessions@,
                e == (|s: SessionId| expired(m, s, now) && m.current_session != Some(s)),
                forall|x: SessionId| stay@.contains(x) <==> (src.subrange(0, i as int).contains(x) && !e(x)),
                forall|x: SessionId| slept@.contains(x) <==> (src.subrange(0, i as int).contains(x) && e(x)),
            decreases src.len() - i,
        {
            let s = self.awake_sessions[i];
            let is_expired = match self.awake_deadline(s) {
                Some(d) => d <= now && match self.current_session {
                    Some(c) => c != s,
                    None => true,
                },
                None => false,
            };
            proof {
                lemma_prefix_push(src, i as int);
                assert(is_expired == e(s));
            }
            let ghost stay0 = stay@;
            let ghost slept0 = slept@;
            if is_expired {
                slept.push(s);
            } else {
                stay.push(s);
            }
            proof {
                assert forall|x: SessionId|
                    (stay@.contains(x) <==> (src.subrange(0, i + 1).contains(x) && !e(x))) && (slept@.contains(x) <==> (
                    src.subrange(0, i + 1).contains(x) && e(x))) by {
                    lemma_push_contains(src.subrange(0, i as int), s, x);
                    lemma_push_contains(stay0, s, x);
                    lemma_push_contains(slept0, s, x);
                }
            }
            i = i + 1;
        }
        assert(src.subrange(0, src.len() as int) == src);
        self.awake_sessions = stay;
        let ghost keep_pred = |s: SessionId| !expired(m, s, now);
        let snapshot = &self.awake_until;
        let ghost snap = self.awake_until@;
        let mut expired_keys: Vec<SessionId> = Vec::new();
        let mut j: usize = 0;
        while j < self.awake_until.len()
            invariant
                j <= snap.len(),
                snap == self.awake_until@,
                m.awake_until == as_map(snap),
                forall|x: SessionId| expired_keys@.contains(x) <==> (expired(m, x, now) && exists|t: int| 0 <= t < j && snap[t].0 == x),
            decreases snap.len() - j,
        {
            let k = self.awake_until[j].0;
            let d = self.awake_deadline(k);
            let ghost ek0 = expired_keys@;
            let is_exp = match d {
                Some(dd) => dd <= now,
                None => false,
            };
            if is_exp {
                expired_keys.push(k);
            }
            proof {
                assert forall|x: SessionId| expired_keys@.contains(x) <==> (expired(m, x, now) && exists|t: int| 0 <= t < j + 1 && snap[t].0 == x) by {
                    lemma_push_contains(ek0, k, x);
                    if exists|t: int| 0 <= t < j + 1 && snap[t].0 == x {
                        let t = choose|t: int| 0 <= t < j + 1 && snap[t].0 == x;
                        if t < j {
                        }
                    }
                }
            }
            j = j + 1;
        }
        proof {
            assert forall|x: SessionId| expired_keys@.contains(x) <==> expired(m, x, now) by {
                if expired(m, x, now) {
                    assert(lookup(snap, x) is Some);
                    if forall|t: int| 0 <= t < snap.len() ==> snap[t].0 != x {
                        lemma_lookup_absent(snap, x);
                    }
                }
            }
        }
        self.retain_deadlines(
            (|k: &SessionId| -> (r: bool)
                ensures
                    r == !expired_keys@.contains(*k),
                { !contains_session(&expired_keys, *k) }),
            Ghost(keep_pred),
        );
        proof {
            assert(self@.awake =~= m.awake.difference(m.awake.filter(e)));
            assert(slept@.to_set() =~= m.awake.filter(e));
        }
        slept
    }
}

impl ServerLedger {
    /// Recomputes the awake set with `active` as the active session and
    /// reports who fell asleep and who woke up.
    pub fn set_awake_sessions(&mut self, active: Option<SessionId>, now: u64) -> (r: AwakeChanges)
        requires
            old(self).wf(),
        ensures
            final(self).wf(),
            (final(self)@, r.went_to_sleep@.to_set(), r.woke_up@.to_set()) == awake_step(old(self)@, active, now),
    {
        let ghost m = self@;
        let ghost n = awake_set(m, active, now);
        let mut nv: Vec<SessionId> = Vec::new();
        if let Some(a) = active {
            nv.push(a);
            assert forall|x: SessionId| nv@.contains(x) <==> active == Some(x) by {
                lemma_push_contains(Seq::<SessionId>::empty(), a, x);
            }
        }
        let ghost ls = self.loading_sessions@;
        let mut i: usize = 0;
        while i < self.loading_sessions.len()
            invariant
                *self == *old(self),
                m == self@,
                n == awake_set(m, active, now),
                i <= ls.len(),
                ls == self.loading_sessions@,
                forall|x: SessionId| #[trigger] nv@.contains(x) <==> (active == Some(x) || ls.subrange(0, i as int).contains(x)),
            decreases ls.len() - i,
        {
            let s = self.loading_sessions[i];
            let ghost nv0 = nv@;
            nv.push(s);
            proof {
                lemma_prefix_push(ls, i as int);
                assert forall|x: SessionId| nv@.contains(x) <==> (active == Some(x) || ls.subrange(0, i + 1).contains(x)) by {
                    lemma_push_contains(nv0, s, x);
                    lemma_push_contains(ls.subrange(0, i as int), s, x);
                }
            }
            i = i + 1;
        }
        assert(ls.subrange(0, ls.len() as int) == ls);
        let ghost snap = self.awake_until@;
        let mut j: usize = 0;
        while j < self.awake_until.len()
            invariant
                *self == *old(self),
                m == self@,
                n == awake_set(m, active, now),
                j <= snap.len(),
                snap == self.awake_until@,
                m == self@,
                forall|x: SessionId|
                    #[trigger] nv@.contains(x) <==> (active == Some(x) || m.loading.contains(x) || (in_prefix(
                        keys_of(snap),
                        j as int,
                        x,
                    ) && m.awake_until.contains_key(x) && m.awake_until[x] > now)),
            decreases snap.len() - j,
        {
            let k = self.awake_until[j].0;
            let d = self.awake_deadline(k);
            let ghost nv0 = nv@;
            let ghost keys = keys_of(snap);
            proof {
                lemma_lookup_some(snap, j as int, k);
                assert(keys[j as int] == k);
            }
            let late = match d {
                Some(dd) => dd > now,
                None => false,
            };
            if late {
                nv.push(k);
            }
            proof {
                assert forall|x: SessionId|
                    #[trigger] nv@.contains(x) <==> (active == Some(x) || m.loading.contains(x) || (in_prefix(
                        keys,
                        j + 1,
                        x,
                    ) && m.awake_until.contains_key(x) && m.awake_until[x] > now)) by {
                    lemma_push_contains(nv0, k, x);
                    if in_prefix(keys, j + 1, x) && !in_prefix(keys, j as int, x) {
                        let t = choose|t: int| 0 <= t < j + 1 && #[trigger] keys[t] == x;
                        if t < j {
                            assert(in_prefix(keys, j as int, x));
                        }
                    }
                    if in_prefix(keys, j as int, x) {
                        let t = choose|t: int| 0 <= t < j && #[trigger] keys[t] == x;
                        assert(keys[t] == x);
                        assert(in_prefix(keys, j + 1, x));
                    }
                }
            }
            j = j + 1;
        }
        proof {
            let keys = keys_of(snap);
            assert forall|x: SessionId| #[trigger] nv@.contains(x) <==> n.contains(x) by {
                if m.awake_until.contains_key(x) {
                    assert(lookup(snap, x) is Some);
                    if !in_prefix(keys, snap.len() as int, x) {
                        assert forall|t: int| 0 <= t < snap.len() implies snap[t].0 != x by {
                            assert(keys[t] == snap[t].0);
                        }
                        lemma_lookup_absent(snap, x);
                    }
                }
            }
            assert(nv@.to_set() =~= n);
        }
        let ghost old_awake = self.awake_sessions@;
        let mut went: Vec<SessionId> = Vec::new();
        let mut i: usize = 0;
        while i < self.awake_sessions.len()
            invariant
                *self == *old(self),
                m == self@,
                n == awake_set(m, active, now),
                forall|x: SessionId| #[trigger] nv@.contains(x) <==> n.contains(x),
                i <= old_awake.len(),
                old_awake == self.awake_sessions@,
                forall|x: SessionId| #[trigger] went@.contains(x) <==> (old_awake.subrange(0, i as int).contains(x) && !nv@.contains(x)),
            decreases old_awake.len() - i,
        {
            let s = self.awake_sessions[i];
            let ghost w0 = went@;
            if !contains_session(&nv, s) {
                went.push(s);
            }
            proof {
                lemma_prefix_push(old_awake, i as int);
                assert forall|x: SessionId| #[trigger] went@.contains(x) <==> (old_awake.subrange(0, i + 1).contains(x) && !nv@.contains(x)) by {
                    lemma_push_contains(w0, s, x);
                    lemma_push_contains(old_awake.subrange(0, i as int), s, x);
                }
            }
            i = i + 1;
        }
        assert(old_awake.subrange(0, old_awake.len() as int) == old_awake);
        let ghost nvs = nv@;
        let mut woke: Vec<SessionId> = Vec::new();
        let mut i: usize = 0;
        while i < nv.len()
            invariant
                *self == *old(self),
                m == self@,
                n == awake_set(m, active, now),
                forall|x: SessionId| #[trigger] nv@.contains(x) <==> n.contains(x),
                forall|x: SessionId| #[trigger] went@.contains(x) <==> (old_awake.contains(x) && !nv@.contains(x)),
                i <= nvs.len(),
                nvs == nv@,
                old_awake == self.awake_sessions@,
                forall|x: SessionId| #[trigger] woke@.contains(x) <==> (nvs.subrange(0, i as int).contains(x) && !old_awake.contains(x)),
            decreases nvs.len() - i,
        {
            let s = nv[i];
            assert(s == nvs[i as int]);
            let ghost w0 = woke@;
            if !contains_session(&self.awake_sessions, s) {
                woke.push(s);
            }
            proof {
                lemma_prefix_push(nvs, i as int);
                assert forall|x: SessionId| #[trigger] woke@.contains(x) <==> (nvs.subrange(0, i + 1).contains(x) && !old_awake.contains(x)) by {
                    lemma_push_contains(w0, s, x);
                    lemma_push_contains(nvs.subrange(0, i as int), s, x);
                }
            }
            i = i + 1;
        }
        assert(nvs.subrange(0, nvs.len() as int) == nvs);
        let ghost keep_pred = |s: SessionId| n.contains(s);
        self.retain_deadlines(
            (|k: &SessionId| -> (r: bool)
                ensures
                    r == nv@.contains(*k),
                { contains_session(&nv, *k) }),
            Ghost(keep_pred),
        );
        self.awake_sessions = nv;
        proof {
            assert(self@.awake =~= n);
            assert(went@.to_set() =~= m.awake.difference(n));
            assert(woke@.to_set() =~= n.difference(m.awake));
            assert(self@.awake_until =~= m.awake_until.restrict(m.awake_until.dom().filter(keep_pred)));
        }
        AwakeChanges { went_to_sleep: went, woke_up: woke }
    }

    /// Makes `next` the active session: passed deadlines are dropped, then the
    /// awake set is recomputed. Reports the sessions that fell asleep in
    /// either step and those that woke up.
    pub fn update_active_session(&mut self, next: Option<SessionId>, now: u64) -> (r: AwakeChanges)
        requires
            old(self).wf(),
        ensures
            final(self).wf(),
            ({
                let (p, slept) = prune_step(ServerModel { current_session: next, ..old(self)@ }, now);
                let (q, went, woke) = awake_step(p, next, now);
                &&& final(self)@ == q
                &&& r.went_to_sleep@.to_set() == slept.union(went)
                &&& r.woke_up@.to_set() == woke
            }),
    {
        self.current_session = next;
        let mut slept = self.prune_expired_awake_sessions(now);
        let changes = self.set_awake_sessions(next, now);
        let mut changes = changes;
        let ghost s0 = slept@;
        let ghost ws = changes.went_to_sleep@;
        slept.append(&mut changes.went_to_sleep);
        proof {
            assert forall|x: SessionId| slept@.contains(x) <==> (s0.contains(x) || ws.contains(x)) by {
                lemma_concat_contains(s0, ws, x);
            }
            assert(slept@.to_set() =~= s0.to_set().union(ws.to_set()));
        }
        AwakeChanges { went_to_sleep: slept, woke_up: changes.woke_up }
    }
}

} // verus!
