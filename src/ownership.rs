//! The renderer-side ledger: per-slot ownership, per-surface current and
//! pending buffers, and the queue of releases that wait for the next commit.
use vstd::prelude::*;

use crate::ids::{MonitorId, SessionId};
use crate::table::{as_map, keep, lookup, lemma_keep_push, lemma_lookup_absent, lemma_lookup_at, lemma_lookup_keep,
    lemma_lookup_push, lemma_lookup_update};

verus! {

broadcast use vstd::seq_lib::group_seq_properties;

/// One of the two buffers of a surface.
#[derive(Clone, Copy, Debug, PartialEq, Eq, Hash, Structural)]
pub enum BufferSlot {
    Zero,
    One,
}

impl BufferSlot {
    /// The slot with the given index, if it is 0 or 1.
    pub fn from_index(idx: usize) -> (r: Option<BufferSlot>)
        ensures
            r == (if idx == 0 {
                Some(BufferSlot::Zero)
            } else if idx == 1 {
                Some(BufferSlot::One)
            } else {
                None
            }),
    {
        match idx {
            0 => Some(BufferSlot::Zero),
            1 => Some(BufferSlot::One),
            _ => None,
        }
    }

    /// The index of this slot.
    pub fn index(self) -> (r: usize)
        ensures
            r == (if self == BufferSlot::Zero { 0usize } else { 1usize }),
    {
        match self {
            BufferSlot::Zero => 0,
            BufferSlot::One => 1,
        }
    }
}

/// A buffer of one (monitor, session) surface: the unit of ownership.
#[derive(Clone, Copy, Debug, PartialEq, Eq, Hash, Structural)]
pub struct SlotKey {
    pub monitor_id: MonitorId,
    pub session_id: SessionId,
    pub buffer: BufferSlot,
}

impl SlotKey {
    pub fn new(monitor_id: MonitorId, session_id: SessionId, buffer: BufferSlot) -> (r: SlotKey)
        ensures
            r == (SlotKey { monitor_id, session_id, buffer }),
    {
        SlotKey { monitor_id, session_id, buffer }
    }
}

/// Who may touch a buffer.
#[derive(Clone, Copy, Debug, PartialEq, Eq, Structural)]
pub enum SlotOwner {
    ClientOwned,
    ShiftOwned,
}

/// What a surface shows and what it waits for.
#[derive(Clone, Copy, Debug, PartialEq, Eq, Structural)]
pub struct MonitorSurfaceState {
    /// The most recently signalled buffer: the one to draw.
    pub current_buffer: Option<BufferSlot>,
    /// The buffer whose acquire fence has not signalled yet.
    pub pending_buffer: Option<BufferSlot>,
}

/// A buffer to hand back to its client after the next commit.
#[derive(Clone, Copy, Debug, PartialEq, Eq, Hash, Structural)]
pub struct DeferredRelease {
    pub monitor_id: MonitorId,
    pub session_id: SessionId,
    pub buffer: BufferSlot,
}

/// What a swap request displaced.
#[derive(Clone, Copy, Debug, PartialEq, Eq, Structural)]
pub struct SwapApplyResult {
    /// A different buffer that was still pending; its waiter must be
    /// cancelled and the buffer released.
    pub canceled_pending: Option<BufferSlot>,
    /// The buffer that stopped being current, to be released.
    pub previous_to_release: Option<BufferSlot>,
}

/// The abstract state of the ledger.
pub ghost struct LedgerModel {
    pub current_session: Option<SessionId>,
    pub surfaces: Map<(MonitorId, SessionId), MonitorSurfaceState>,
    pub owners: Map<SlotKey, SlotOwner>,
    pub releases: Seq<DeferredRelease>,
}

pub open spec fn empty_surface() -> MonitorSurfaceState {
    MonitorSurfaceState { current_buffer: None, pending_buffer: None }
}

/// `o` unless it holds `b`.
pub open spec fn other_than(o: Option<BufferSlot>, b: BufferSlot) -> Option<BufferSlot> {
    if o == Some(b) {
        None
    } else {
        o
    }
}

/// The effect of a swap request on the ledger, and what it reports.
pub open spec fn swap_step(
    m: LedgerModel,
    monitor_id: MonitorId,
    session_id: SessionId,
    slot: BufferSlot,
    has_acquire_fence: bool,
) -> (LedgerModel, SwapApplyResult) {
    let key = (monitor_id, session_id);
    let old_state = if m.surfaces.contains_key(key) {
        m.surfaces[key]
    } else {
        empty_surface()
    };
    let canceled = match old_state.pending_buffer {
        Some(p) => if p != slot {
            Some(p)
        } else {
            None
        },
        None => None,
    };
    let previous = old_state.current_buffer;
    let new_state = if has_acquire_fence {
        MonitorSurfaceState { current_buffer: previous, pending_buffer: Some(slot) }
    } else {
        MonitorSurfaceState { current_buffer: Some(slot), pending_buffer: None }
    };
    let released = if has_acquire_fence {
        None
    } else {
        other_than(previous, slot)
    };
    (
        LedgerModel {
            surfaces: m.surfaces.insert(key, new_state),
            owners: m.owners.insert(SlotKey { monitor_id, session_id, buffer: slot }, SlotOwner::ShiftOwned),
            ..m
        },
        SwapApplyResult { canceled_pending: canceled, previous_to_release: released },
    )
}

/// The effect of an acquire fence signalling for `key`: a pending buffer
/// becomes current; any other signal is stale and changes nothing.
pub open spec fn signal_step(m: LedgerModel, key: SlotKey) -> (LedgerModel, Option<BufferSlot>) {
    let sk = (key.monitor_id, key.session_id);
    if m.surfaces.contains_key(sk) && m.surfaces[sk].pending_buffer == Some(key.buffer) {
        let previous = m.surfaces[sk].current_buffer;
        (
            LedgerModel {
                surfaces: m.surfaces.insert(
                    sk,
                    MonitorSurfaceState { current_buffer: Some(key.buffer), pending_buffer: None },
                ),
                ..m
            },
            other_than(previous, key.buffer),
        )
    } else {
        (m, None)
    }
}

/// The slot drawn for a session on a monitor.
pub open spec fn current_slot_of(m: LedgerModel, monitor_id: MonitorId, session_id: SessionId) -> Option<SlotKey> {
    let key = (monitor_id, session_id);
    if m.surfaces.contains_key(key) {
        match m.surfaces[key].current_buffer {
            Some(b) => Some(SlotKey { monitor_id, session_id, buffer: b }),
            None => None,
        }
    } else {
        None
    }
}

/// Resubmitting with a fence and then seeing that fence signal leaves the
/// ledger exactly as a submission without a fence would, and releases the
/// same buffers.
pub proof fn lemma_fence_signal_completes_swap(
    m: LedgerModel,
    monitor_id: MonitorId,
    session_id: SessionId,
    slot: BufferSlot,
)
    ensures
        ({
            let (m1, r1) = swap_step(m, monitor_id, session_id, slot, true);
            let (m2, released) = signal_step(m1, SlotKey { monitor_id, session_id, buffer: slot });
            let (n, r) = swap_step(m, monitor_id, session_id, slot, false);
            &&& m2 == n
            &&& r1.canceled_pending == r.canceled_pending
            &&& released == r.previous_to_release
        }),
{
    let (m1, r1) = swap_step(m, monitor_id, session_id, slot, true);
    let (m2, released) = signal_step(m1, SlotKey { monitor_id, session_id, buffer: slot });
    let (n, r) = swap_step(m, monitor_id, session_id, slot, false);
    assert(m2.surfaces =~= n.surfaces);
    assert(m2.owners =~= n.owners);
}

/// A swap that carries an acquire fence never changes what a surface shows,
/// and a fence signal changes it only for its own slot and only if that slot
/// was the pending one: a buffer becomes current after its own fence
/// signalled, never because of another's.
pub proof fn lemma_fence_gates_promotion(
    m: LedgerModel,
    monitor_id: MonitorId,
    session_id: SessionId,
    slot: BufferSlot,
    key: SlotKey,
)
    ensures
        ({
            let sk = (monitor_id, session_id);
            let (n, _) = swap_step(m, monitor_id, session_id, slot, true);
            n.surfaces[sk].current_buffer == (if m.surfaces.contains_key(sk) {
                m.surfaces[sk].current_buffer
            } else {
                None
            })
        }),
        ({
            let sk = (key.monitor_id, key.session_id);
            let (n, _) = signal_step(m, key);
            &&& forall|k: (MonitorId, SessionId)| k != sk ==> n.surfaces.contains_key(k) == m.surfaces.contains_key(k)
                && (m.surfaces.contains_key(k) ==> n.surfaces[k] == m.surfaces[k])
            &&& n.surfaces.contains_key(sk) == m.surfaces.contains_key(sk)
            &&& m.surfaces.contains_key(sk) && n.surfaces[sk] != m.surfaces[sk] ==> {
                &&& m.surfaces[sk].pending_buffer == Some(key.buffer)
                &&& n.surfaces[sk].current_buffer == Some(key.buffer)
                &&& n.surfaces[sk].pending_buffer is None
            }
        }),
{
}

/// The renderer's ownership ledger.
pub struct OwnershipManager {
    current_session: Option<SessionId>,
    monitor_state: Vec<((MonitorId, SessionId), MonitorSurfaceState)>,
    slot_ownership: Vec<(SlotKey, SlotOwner)>,
    deferred_releases: Vec<DeferredRelease>,
}

impl View for OwnershipManager {
    type V = LedgerModel;

    closed spec fn view(&self) -> LedgerModel {
        LedgerModel {
            current_session: self.current_session,
            surfaces: as_map(self.monitor_state@),
            owners: as_map(self.slot_ownership@),
            releases: self.deferred_releases@,
        }
    }
}

impl OwnershipManager {
    pub fn new() -> (r: OwnershipManager)
        ensures
            r@ == (LedgerModel {
                current_session: None,
                surfaces: Map::empty(),
                owners: Map::empty(),
                releases: Seq::empty(),
            }),
    {
        let r = OwnershipManager {
            current_session: None,
            monitor_state: Vec::new(),
            slot_ownership: Vec::new(),
            deferred_releases: Vec::new(),
        };
        assert(r@.surfaces =~= Map::empty());
        assert(r@.owners =~= Map::empty());
        r
    }

    pub fn current_session(&self) -> (r: Option<SessionId>)
        ensures
            r == self@.current_session,
    {
        self.current_session
    }

    pub fn set_current_session(&mut self, session_id: Option<SessionId>)
        ensures
            final(self)@ == (LedgerModel { current_session: session_id, ..old(self)@ }),
    {
        self.current_session = session_id;
    }

    /// Index of the last surface entry for `(monitor_id, session_id)`.
    fn find_surface(&self, monitor_id: MonitorId, session_id: SessionId) -> (r: Option<usize>)
        ensures
            match r {
                Some(i) => {
                    &&& i < self.monitor_state@.len()
                    &&& self.monitor_state@[i as int].0 == (monitor_id, session_id)
                    &&& forall|j: int|
                        i < j < self.monitor_state@.len() ==> self.monitor_state@[j].0 != (
                            monitor_id,
                            session_id,
                        )
                },
                None => forall|j: int|
                    0 <= j < self.monitor_state@.len() ==> self.monitor_state@[j].0 != (
                        monitor_id,
                        session_id,
                    ),
            },
    {
        let mut i: usize = self.monitor_state.len();
        while i > 0
            invariant
                i <= self.monitor_state@.len(),
                forall|j: int|
                    i <= j < self.monitor_state@.len() ==> self.monitor_state@[j].0 != (
                        monitor_id,
                        session_id,
                    ),
            decreases i,
        {
            i = i - 1;
            let k = self.monitor_state[i].0;
            if k.0 == monitor_id && k.1 == session_id {
                return Some(i);
            }
        }
        None
    }

    /// Index of the last ownership entry for `key`.
    fn find_owner(&self, key: SlotKey) -> (r: Option<usize>)
        ensures
            match r {
                Some(i) => {
                    &&& i < self.slot_ownership@.len()
                    &&& self.slot_ownership@[i as int].0 == key
                    &&& forall|j: int| i < j < self.slot_ownership@.len() ==> self.slot_ownership@[j].0 != key
                },
                None => forall|j: int| 0 <= j < self.slot_ownership@.len() ==> self.slot_ownership@[j].0 != key,
            },
    {
        let mut i: usize = self.slot_ownership.len();
        while i > 0
            invariant
                i <= self.slot_ownership@.len(),
                forall|j: int| i <= j < self.slot_ownership@.len() ==> self.slot_ownership@[j].0 != key,
            decreases i,
        {
            i = i - 1;
            let k = self.slot_ownership[i].0;
            if k.monitor_id == key.monitor_id && k.session_id == key.session_id && k.buffer == key.buffer {
                return Some(i);
            }
        }
        None
    }

    /// The state of an existing surface, by its index in the table.
    fn state_mut(&self, monitor_id: MonitorId, session_id: SessionId) -> (r: Option<usize>)
        ensures
            match r {
                Some(i) => {
                    &&& self@.surfaces.contains_key((monitor_id, session_id))
                    &&& i < self.monitor_state@.len()
                    &&& self.monitor_state@[i as int].0 == (monitor_id, session_id)
                    &&& self.monitor_state@[i as int].1 == self@.surfaces[(monitor_id, session_id)]
                    &&& forall|j: int|
                        i < j < self.monitor_state@.len() ==> self.monitor_state@[j].0 != (
                            monitor_id,
                            session_id,
                        )
                },
                None => !self@.surfaces.contains_key((monitor_id, session_id)),
            },
    {
        let r = self.find_surface(monitor_id, session_id);
        proof {
            match r {
                Some(i) => lemma_lookup_at(self.monitor_state@, i as int, (monitor_id, session_id)),
                None => lemma_lookup_absent(self.monitor_state@, (monitor_id, session_id)),
            }
        }
        r
    }

    /// The index of the surface's entry, made empty if it did not exist.
    fn state_entry(&mut self, monitor_id: MonitorId, session_id: SessionId) -> (r: usize)
        ensures
            final(self)@ == (LedgerModel {
                surfaces: if old(self)@.surfaces.contains_key((monitor_id, session_id)) {
                    old(self)@.surfaces
                } else {
                    old(self)@.surfaces.insert((monitor_id, session_id), empty_surface())
                },
                ..old(self)@
            }),
            r < final(self).monitor_state@.len(),
            final(self).monitor_state@[r as int].0 == (monitor_id, session_id),
            final(self).monitor_state@[r as int].1 == final(self)@.surfaces[(monitor_id, session_id)],
            forall|j: int|
                r < j < final(self).monitor_state@.len() ==> final(self).monitor_state@[j].0 != (
                    monitor_id,
                    session_id,
                ),
    {
        match self.state_mut(monitor_id, session_id) {
            Some(i) => i,
            None => {
                let ghost before = self.monitor_state@;
                self.monitor_state.push(((monitor_id, session_id), MonitorSurfaceState {
                    current_buffer: None,
                    pending_buffer: None,
                }));
                proof {
                    assert forall|k| #[trigger] lookup(self.monitor_state@, k) == if k == (monitor_id, session_id) {
                        Some(empty_surface())
                    } else {
                        lookup(before, k)
                    } by {
                        lemma_lookup_push(before, (monitor_id, session_id), empty_surface(), k);
                    }
                    assert(self@.surfaces =~= old(self)@.surfaces.insert((monitor_id, session_id), empty_surface()));
                }
                self.monitor_state.len() - 1
            },
        }
    }

    /// Replaces the state stored at index `i`, the last entry of its key.
    fn set_state(&mut self, i: usize, st: MonitorSurfaceState)
        requires
            i < old(self).monitor_state@.len(),
            forall|j: int|
                i < j < old(self).monitor_state@.len() ==> old(self).monitor_state@[j].0 != old(
                    self,
                ).monitor_state@[i as int].0,
        ensures
            final(self)@ == (LedgerModel {
                surfaces: old(self)@.surfaces.insert(old(self).monitor_state@[i as int].0, st),
                ..old(self)@
            }),
            final(self).monitor_state@.len() == old(self).monitor_state@.len(),
    {
        let key = self.monitor_state[i].0;
        let ghost before = self.monitor_state@;
        self.monitor_state.set(i, (key, st));
        proof {
            assert forall|k| #[trigger] lookup(self.monitor_state@, k) == if k == key {
                Some(st)
            } else {
                lookup(before, k)
            } by {
                lemma_lookup_update(before, i as int, key, st, k);
            }
            assert(self@.surfaces =~= old(self)@.surfaces.insert(key, st));
        }
    }

    /// Creates an empty surface entry for the current session on each of
    /// the given monitors that has none yet.
    pub fn ensure_current_session_monitors(&mut self, monitor_ids: &[MonitorId])
        ensures
            final(self)@.current_session == old(self)@.current_session,
            final(self)@.owners == old(self)@.owners,
            final(self)@.releases == old(self)@.releases,
            old(self)@.current_session is None ==> final(self)@.surfaces == old(self)@.surfaces,
            forall|k: (MonitorId, SessionId)|
                #[trigger] final(self)@.surfaces.contains_key(k) <==> (old(self)@.surfaces.contains_key(k) || (
                old(self)@.current_session == Some(k.1) && monitor_ids@.contains(k.0))),
            forall|k: (MonitorId, SessionId)|
                #[trigger] final(self)@.surfaces.contains_key(k) ==> final(self)@.surfaces[k] == if old(
                    self,
                )@.surfaces.contains_key(k) {
                    old(self)@.surfaces[k]
                } else {
                    empty_surface()
                },
    {
        if let Some(session_id) = self.current_session {
            let mut i: usize = 0;
            while i < monitor_ids.len()
                invariant
                    i <= monitor_ids@.len(),
                    self@.current_session == old(self)@.current_session,
                    self@.current_session == Some(session_id),
                    self@.owners == old(self)@.owners,
                    self@.releases == old(self)@.releases,
                    forall|k: (MonitorId, SessionId)|
                        #[trigger] self@.surfaces.contains_key(k) <==> (old(self)@.surfaces.contains_key(k) || (
                        k.1 == session_id && monitor_ids@.subrange(0, i as int).contains(k.0))),
                    forall|k: (MonitorId, SessionId)|
                        #[trigger] self@.surfaces.contains_key(k) ==> self@.surfaces[k] == if old(
                            self,
                        )@.surfaces.contains_key(k) {
                            old(self)@.surfaces[k]
                        } else {
                            empty_surface()
                        },
                decreases monitor_ids@.len() - i,
            {
                let m = monitor_ids[i];
                self.state_entry(m, session_id);
                proof {
                    assert(monitor_ids@.subrange(0, i + 1) == monitor_ids@.subrange(0, i as int).push(m));
                }
                i = i + 1;
            }
            proof {
                assert(monitor_ids@.subrange(0, i as int) == monitor_ids@);
            }
        }
    }

    pub fn current_slot_key(&self, monitor_id: MonitorId) -> (r: Option<SlotKey>)
        ensures
            r == match self@.current_session {
                Some(s) => current_slot_of(self@, monitor_id, s),
                None => None,
            },
    {
        let session_id = self.current_session?;
        self.current_slot_key_for_session(monitor_id, session_id)
    }

    pub fn current_slot_key_for_session(&self, monitor_id: MonitorId, session_id: SessionId) -> (r: Option<
        SlotKey,
    >)
        ensures
            r == current_slot_of(self@, monitor_id, session_id),
    {
        let i = self.state_mut(monitor_id, session_id)?;
        let buffer = self.monitor_state[i].1.current_buffer?;
        Some(SlotKey::new(monitor_id, session_id, buffer))
    }

    pub fn owner(&self, key: SlotKey) -> (r: Option<SlotOwner>)
        ensures
            r == (if self@.owners.contains_key(key) {
                Some(self@.owners[key])
            } else {
                None
            }),
    {
        match self.find_owner(key) {
            Some(i) => {
                proof {
                    lemma_lookup_at(self.slot_ownership@, i as int, key);
                }
                Some(self.slot_ownership[i].1)
            },
            None => {
                proof {
                    lemma_lookup_absent(self.slot_ownership@, key);
                }
                None
            },
        }
    }

    fn set_owner(&mut self, key: SlotKey, owner: SlotOwner)
        ensures
            final(self)@ == (LedgerModel { owners: old(self)@.owners.insert(key, owner), ..old(self)@ }),
    {
        let ghost before = self.slot_ownership@;
        match self.find_owner(key) {
            Some(i) => {
                self.slot_ownership.set(i, (key, owner));
                proof {
                    assert forall|k| #[trigger] lookup(self.slot_ownership@, k) == if k == key {
                        Some(owner)
                    } else {
                        lookup(before, k)
                    } by {
                        lemma_lookup_update(before, i as int, key, owner, k);
                    }
                }
            },
            None => {
                self.slot_ownership.push((key, owner));
                proof {
                    assert forall|k| #[trigger] lookup(self.slot_ownership@, k) == if k == key {
                        Some(owner)
                    } else {
                        lookup(before, k)
                    } by {
                        lemma_lookup_push(before, key, owner, k);
                    }
                }
            },
        }
        assert(self@.owners =~= old(self)@.owners.insert(key, owner));
    }

    pub fn mark_slot_client_owned(&mut self, key: SlotKey)
        ensures
            final(self)@ == (LedgerModel {
                owners: old(self)@.owners.insert(key, SlotOwner::ClientOwned),
                ..old(self)@
            }),
    {
        self.set_owner(key, SlotOwner::ClientOwned);
    }

    pub fn mark_slot_shift_owned(&mut self, key: SlotKey)
        ensures
            final(self)@ == (LedgerModel {
                owners: old(self)@.owners.insert(key, SlotOwner::ShiftOwned),
                ..old(self)@
            }),
    {
        self.set_owner(key, SlotOwner::ShiftOwned);
    }

    /// Records a swap request: the slot becomes Shift-owned and pending; with
    /// no acquire fence it becomes current at once.
    pub fn apply_swap_request(
        &mut self,
        monitor_id: MonitorId,
        session_id: SessionId,
        slot: BufferSlot,
        has_acquire_fence: bool,
    ) -> (r: SwapApplyResult)
        ensures
            (final(self)@, r) == swap_step(old(self)@, monitor_id, session_id, slot, has_acquire_fence),
    {
        let canceled_pending = match self.state_mut(monitor_id, session_id) {
            Some(i) => match self.monitor_state[i].1.pending_buffer {
                Some(p) => if p != slot {
                    Some(p)
                } else {
                    None
                },
                None => None,
            },
            None => None,
        };
        self.mark_slot_shift_owned(SlotKey::new(monitor_id, session_id, slot));
        let i = self.state_entry(monitor_id, session_id);
        let previous = self.monitor_state[i].1.current_buffer;
        let previous_to_release = if has_acquire_fence {
            self.set_state(i, MonitorSurfaceState { current_buffer: previous, pending_buffer: Some(slot) });
            None
        } else {
            self.set_state(i, MonitorSurfaceState { current_buffer: Some(slot), pending_buffer: None });
            match previous {
                Some(prev) => if prev != slot {
                    Some(prev)
                } else {
                    None
                },
                None => None,
            }
        };
        proof {
            let (n, _) = swap_step(old(self)@, monitor_id, session_id, slot, has_acquire_fence);
            assert(self@.surfaces =~= n.surfaces);
        }
        SwapApplyResult { canceled_pending, previous_to_release }
    }

    /// Promotes the slot to current if it is the surface's pending buffer;
    /// returns the buffer it replaced.
    pub fn apply_acquire_fence_signaled(&mut self, key: SlotKey) -> (r: Option<BufferSlot>)
        ensures
            (final(self)@, r) == signal_step(old(self)@, key),
    {
        let i = self.state_mut(key.monitor_id, key.session_id)?;
        let st = self.monitor_state[i].1;
        match st.pending_buffer {
            Some(p) => {
                if p != key.buffer {
                    return None;
                }
            },
            None => {
                return None;
            },
        }
        let previous = st.current_buffer;
        self.set_state(i, MonitorSurfaceState { current_buffer: Some(key.buffer), pending_buffer: None });
        match previous {
            Some(prev) => if prev != key.buffer {
                Some(prev)
            } else {
                None
            },
            None => None,
        }
    }

    /// Queues a buffer for release after the next commit, once.
    pub fn queue_buffer_release(&mut self, monitor_id: MonitorId, session_id: SessionId, buffer: BufferSlot)
        ensures
            ({
                let item = DeferredRelease { monitor_id, session_id, buffer };
                final(self)@ == (LedgerModel {
                    releases: if old(self)@.releases.contains(item) {
                        old(self)@.releases
                    } else {
                        old(self)@.releases.push(item)
                    },
                    ..old(self)@
                })
            }),
    {
        let ghost item = DeferredRelease { monitor_id, session_id, buffer };
        let mut i: usize = 0;
        while i < self.deferred_releases.len()
            invariant
                i <= self.deferred_releases@.len(),
                *self == *old(self),
                item == (DeferredRelease { monitor_id, session_id, buffer }),
                forall|j: int| 0 <= j < i ==> self.deferred_releases@[j] != item,
            decreases self.deferred_releases@.len() - i,
        {
            let d = self.deferred_releases[i];
            if d.monitor_id == monitor_id && d.session_id == session_id && d.buffer == buffer {
                assert(self.deferred_releases@[i as int] == item);
                return;
            }
            i = i + 1;
        }
        self.deferred_releases.push(DeferredRelease { monitor_id, session_id, buffer });
    }

    /// Hands out the queued releases in order and empties the queue.
    pub fn take_deferred_releases(&mut self) -> (r: Vec<DeferredRelease>)
        ensures
            r@ == old(self)@.releases,
            final(self)@ == (LedgerModel { releases: Seq::empty(), ..old(self)@ }),
    {
        let mut r: Vec<DeferredRelease> = Vec::new();
        std::mem::swap(&mut r, &mut self.deferred_releases);
        r
    }

    /// Drops every entry that concerns the monitor.
    pub fn cleanup_monitor(&mut self, monitor_id: MonitorId)
        ensures
            final(self)@ == (LedgerModel {
                surfaces: old(self)@.surfaces.restrict(
                    old(self)@.surfaces.dom().filter(|k: (MonitorId, SessionId)| k.0 != monitor_id),
                ),
                owners: old(self)@.owners.restrict(
                    old(self)@.owners.dom().filter(|k: SlotKey| k.monitor_id != monitor_id),
                ),
                releases: old(self)@.releases.filter(|d: DeferredRelease| d.monitor_id != monitor_id),
                ..old(self)@
            }),
    {
        let ghost ps = |k: (MonitorId, SessionId)| k.0 != monitor_id;
        let ghost po = |k: SlotKey| k.monitor_id != monitor_id;
        let ghost old_owners = self.slot_ownership@;
        let ghost old_states = self.monitor_state@;
        let mut owners: Vec<(SlotKey, SlotOwner)> = Vec::new();
        let mut i: usize = 0;
        while i < self.slot_ownership.len()
            invariant
                i <= self.slot_ownership@.len(),
                *self == *old(self),
                po == (|k: SlotKey| k.monitor_id != monitor_id),
                owners@ == keep(self.slot_ownership@.subrange(0, i as int), po),
            decreases self.slot_ownership@.len() - i,
        {
            let e = self.slot_ownership[i];
            proof {
                assert(self.slot_ownership@.subrange(0, i + 1) == self.slot_ownership@.subrange(0, i as int).push(e));
                lemma_keep_push(self.slot_ownership@.subrange(0, i as int), e, po);
            }
            if e.0.monitor_id != monitor_id {
                owners.push(e);
            }
            i = i + 1;
        }
        let mut states: Vec<((MonitorId, SessionId), MonitorSurfaceState)> = Vec::new();
        let mut i: usize = 0;
        while i < self.monitor_state.len()
            invariant
                i <= self.monitor_state@.len(),
                *self == *old(self),
                ps == (|k: (MonitorId, SessionId)| k.0 != monitor_id),
                states@ == keep(self.monitor_state@.subrange(0, i as int), ps),
            decreases self.monitor_state@.len() - i,
        {
            let e = self.monitor_state[i];
            proof {
                assert(self.monitor_state@.subrange(0, i + 1) == self.monitor_state@.subrange(0, i as int).push(e));
                lemma_keep_push(self.monitor_state@.subrange(0, i as int), e, ps);
            }
            if e.0.0 != monitor_id {
                states.push(e);
            }
            i = i + 1;
        }
        let mut releases: Vec<DeferredRelease> = Vec::new();
        let ghost pr = |d: DeferredRelease| d.monitor_id != monitor_id;
        let mut i: usize = 0;
        while i < self.deferred_releases.len()
            invariant
                i <= self.deferred_releases@.len(),
                *self == *old(self),
                pr == (|d: DeferredRelease| d.monitor_id != monitor_id),
                releases@ == self.deferred_releases@.subrange(0, i as int).filter(pr),
            decreases self.deferred_releases@.len() - i,
        {
            let d = self.deferred_releases[i];
            proof {
                assert(self.deferred_releases@.subrange(0, i + 1) == self.deferred_releases@.subrange(0, i as int).push(d));
                self.deferred_releases@.subrange(0, i as int).lemma_filter_push(d, pr);
            }
            if d.monitor_id != monitor_id {
                releases.push(d);
            }
            i = i + 1;
        }
        proof {
            assert(self.slot_ownership@.subrange(0, self.slot_ownership@.len() as int) == self.slot_ownership@);
            assert(self.monitor_state@.subrange(0, self.monitor_state@.len() as int) == self.monitor_state@);
            assert(self.deferred_releases@.subrange(0, self.deferred_releases@.len() as int) == self.deferred_releases@);
        }
        self.slot_ownership = owners;
        self.monitor_state = states;
        self.deferred_releases = releases;
        proof {
            assert forall|k| #[trigger] lookup(self.slot_ownership@, k) == if po(k) { lookup(old_owners, k) } else { None } by {
                lemma_lookup_keep(old_owners, po, k);
            }
            assert forall|k| #[trigger] lookup(self.monitor_state@, k) == if ps(k) { lookup(old_states, k) } else { None } by {
                lemma_lookup_keep(old_states, ps, k);
            }
            assert(self@.owners =~= old(self)@.owners.restrict(old(self)@.owners.dom().filter(po)));
            assert(self@.surfaces =~= old(self)@.surfaces.restrict(old(self)@.surfaces.dom().filter(ps)));
        }
    }

    /// Drops every entry that concerns the session.
    pub fn cleanup_session(&mut self, session_id: SessionId)
        ensures
            final(self)@ == (LedgerModel {
                surfaces: old(self)@.surfaces.restrict(
                    old(self)@.surfaces.dom().filter(|k: (MonitorId, SessionId)| k.1 != session_id),
                ),
                owners: old(self)@.owners.restrict(
                    old(self)@.owners.dom().filter(|k: SlotKey| k.session_id != session_id),
                ),
                releases: old(self)@.releases.filter(|d: DeferredRelease| d.session_id != session_id),
                ..old(self)@
            }),
    {
        let ghost ps = |k: (MonitorId, SessionId)| k.1 != session_id;
        let ghost po = |k: SlotKey| k.session_id != session_id;
        let ghost old_owners = self.slot_ownership@;
        let ghost old_states = self.monitor_state@;
        let mut owners: Vec<(SlotKey, SlotOwner)> = Vec::new();
        let mut i: usize = 0;
        while i < self.slot_ownership.len()
            invariant
                i <= self.slot_ownership@.len(),
                *self == *old(self),
                po == (|k: SlotKey| k.session_id != session_id),
                owners@ == keep(self.slot_ownership@.subrange(0, i as int), po),
            decreases self.slot_ownership@.len() - i,
        {
            let e = self.slot_ownership[i];
            proof {
                assert(self.slot_ownership@.subrange(0, i + 1) == self.slot_ownership@.subrange(0, i as int).push(e));
                lemma_keep_push(self.slot_ownership@.subrange(0, i as int), e, po);
            }
            if e.0.session_id != session_id {
                owners.push(e);
            }
            i = i + 1;
        }
        let mut states: Vec<((MonitorId, SessionId), MonitorSurfaceState)> = Vec::new();
        let mut i: usize = 0;
        while i < self.monitor_state.len()
            invariant
                i <= self.monitor_state@.len(),
                *self == *old(self),
                ps == (|k: (MonitorId, SessionId)| k.1 != session_id),
                states@ == keep(self.monitor_state@.subrange(0, i as int), ps),
            decreases self.monitor_state@.len() - i,
        {
            let e = self.monitor_state[i];
            proof {
                assert(self.monitor_state@.subrange(0, i + 1) == self.monitor_state@.subrange(0, i as int).push(e));
                lemma_keep_push(self.monitor_state@.subrange(0, i as int), e, ps);
            }
            if e.0.1 != session_id {
                states.push(e);
            }
            i = i + 1;
        }
        let mut releases: Vec<DeferredRelease> = Vec::new();
        let ghost pr = |d: DeferredRelease| d.session_id != session_id;
        let mut i: usize = 0;
        while i < self.deferred_releases.len()
            invariant
                i <= self.deferred_releases@.len(),
                *self == *old(self),
                pr == (|d: DeferredRelease| d.session_id != session_id),
                releases@ == self.deferred_releases@.subrange(0, i as int).filter(pr),
            decreases self.deferred_releases@.len() - i,
        {
            let d = self.deferred_releases[i];
            proof {
                assert(self.deferred_releases@.subrange(0, i + 1) == self.deferred_releases@.subrange(0, i as int).push(d));
                self.deferred_releases@.subrange(0, i as int).lemma_filter_push(d, pr);
            }
            if d.session_id != session_id {
                releases.push(d);
            }
            i = i + 1;
        }
        proof {
            assert(self.slot_ownership@.subrange(0, self.slot_ownership@.len() as int) == self.slot_ownership@);
            assert(self.monitor_state@.subrange(0, self.monitor_state@.len() as int) == self.monitor_state@);
            assert(self.deferred_releases@.subrange(0, self.deferred_releases@.len() as int) == self.deferred_releases@);
        }
        self.slot_ownership = owners;
        self.monitor_state = states;
        self.deferred_releases = releases;
        proof {
            assert forall|k| #[trigger] lookup(self.slot_ownership@, k) == if po(k) { lookup(old_owners, k) } else { None } by {
                lemma_lookup_keep(old_owners, po, k);
            }
            assert forall|k| #[trigger] lookup(self.monitor_state@, k) == if ps(k) { lookup(old_states, k) } else { None } by {
                lemma_lookup_keep(old_states, ps, k);
            }
            assert(self@.owners =~= old(self)@.owners.restrict(old(self)@.owners.dom().filter(po)));
            assert(self@.surfaces =~= old(self)@.surfaces.restrict(old(self)@.surfaces.dom().filter(ps)));
        }
    }
}

} // verus!
