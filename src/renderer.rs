//! The compositor's decisions on server commands and fence signals, taken
//! over the ownership ledger; the GPU work they call for is done elsewhere.
use vstd::prelude::*;

use crate::ids::{MonitorId, SessionId};
use crate::ownership::{
    signal_step, swap_step, BufferSlot, DeferredRelease, LedgerModel, OwnershipManager, SlotKey, SlotOwner,
};

verus! {

/// Why the compositor refused a swap request.
#[derive(Clone, Copy, Debug, PartialEq, Eq, Structural)]
pub enum SwapRejection {
    /// The monitor is not known to the compositor.
    UnknownMonitor,
    /// No framebuffer was imported for the slot.
    UnlinkedBuffer,
}

impl SwapRejection {
    /// The reason reported to the server.
    pub fn reason(&self) -> (r: &'static str)
        ensures
            r@ == match self {
                SwapRejection::UnknownMonitor => "unknown_monitor"@,
                SwapRejection::UnlinkedBuffer => "unlinked_buffer"@,
            },
    {
        match self {
            SwapRejection::UnknownMonitor => "unknown_monitor",
            SwapRejection::UnlinkedBuffer => "unlinked_buffer",
        }
    }
}

/// What the fence machinery must do for an accepted swap.
#[derive(Clone, Copy, Debug, PartialEq, Eq, Structural)]
pub struct SwapEffects {
    /// A waiter to cancel: the one of a pending buffer that was displaced.
    pub cancel_waiter: Option<SlotKey>,
    /// Arm a waiter on the new slot's acquire fence (otherwise cancel any
    /// waiter it has).
    pub arm_waiter: bool,
}

/// Queueing a release once.
pub open spec fn queue_step(m: LedgerModel, d: DeferredRelease) -> LedgerModel {
    if m.releases.contains(d) {
        m
    } else {
        LedgerModel { releases: m.releases.push(d), ..m }
    }
}

pub open spec fn release_of(monitor_id: MonitorId, session_id: SessionId, b: Option<BufferSlot>, m: LedgerModel) -> LedgerModel {
    match b {
        Some(buffer) => queue_step(m, DeferredRelease { monitor_id, session_id, buffer }),
        None => m,
    }
}

/// The ledger after an accepted swap: the swap itself, then the release of
/// a displaced pending buffer, then that of the replaced current buffer.
pub open spec fn accepted_swap(
    m: LedgerModel,
    monitor_id: MonitorId,
    session_id: SessionId,
    slot: BufferSlot,
    has_acquire_fence: bool,
) -> LedgerModel {
    let (m1, res) = swap_step(m, monitor_id, session_id, slot, has_acquire_fence);
    let m2 = release_of(monitor_id, session_id, res.canceled_pending, m1);
    release_of(monitor_id, session_id, res.previous_to_release, m2)
}

/// Handles a swap request from the server. A request for an unknown monitor
/// or an unlinked slot is refused and changes nothing; otherwise the ledger
/// records it, displaced buffers are queued for release, and the fence
/// waiters to cancel or arm are returned.
pub fn handle_swap_request(
    ledger: &mut OwnershipManager,
    monitor_known: bool,
    slot_linked: bool,
    monitor_id: MonitorId,
    session_id: SessionId,
    slot: BufferSlot,
    has_acquire_fence: bool,
) -> (r: Result<SwapEffects, SwapRejection>)
    ensures
        !monitor_known ==> r == Err::<SwapEffects, SwapRejection>(SwapRejection::UnknownMonitor),
        monitor_known && !slot_linked ==> r == Err::<SwapEffects, SwapRejection>(SwapRejection::UnlinkedBuffer),
        r is Err ==> final(ledger)@ == old(ledger)@,
        monitor_known && slot_linked ==> {
            let (_, res) = swap_step(old(ledger)@, monitor_id, session_id, slot, has_acquire_fence);
            &&& final(ledger)@ == accepted_swap(old(ledger)@, monitor_id, session_id, slot, has_acquire_fence)
            &&& r == Ok::<SwapEffects, SwapRejection>(
                SwapEffects {
                    cancel_waiter: match res.canceled_pending {
                        Some(b) => Some(SlotKey { monitor_id, session_id, buffer: b }),
                        None => None,
                    },
                    arm_waiter: has_acquire_fence,
                },
            )
        },
{
    if !monitor_known {
        return Err(SwapRejection::UnknownMonitor);
    }
    if !slot_linked {
        return Err(SwapRejection::UnlinkedBuffer);
    }
    let res = ledger.apply_swap_request(monitor_id, session_id, slot, has_acquire_fence);
    let cancel_waiter = match res.canceled_pending {
        Some(b) => {
            ledger.queue_buffer_release(monitor_id, session_id, b);
            Some(SlotKey::new(monitor_id, session_id, b))
        },
        None => None,
    };
    if let Some(b) = res.previous_to_release {
        ledger.queue_buffer_release(monitor_id, session_id, b);
    }
    Ok(SwapEffects { cancel_waiter, arm_waiter: has_acquire_fence })
}

/// Handles an acquire fence that signalled: a pending slot becomes current
/// and the buffer it replaced is queued for release.
pub fn handle_fence_signaled(ledger: &mut OwnershipManager, key: SlotKey)
    ensures
        ({
            let (m1, prev) = signal_step(old(ledger)@, key);
            final(ledger)@ == release_of(key.monitor_id, key.session_id, prev, m1)
        }),
{
    if let Some(prev) = ledger.apply_acquire_fence_signaled(key) {
        ledger.queue_buffer_release(key.monitor_id, key.session_id, prev);
    }
}

/// Handles the removal of a session: its ledger state goes, and it stops
/// being the current session.
pub fn handle_session_removed(ledger: &mut OwnershipManager, session_id: SessionId)
    ensures
        final(ledger)@.surfaces == old(ledger)@.surfaces.restrict(
            old(ledger)@.surfaces.dom().filter(|k: (MonitorId, SessionId)| k.1 != session_id),
        ),
        final(ledger)@.owners == old(ledger)@.owners.restrict(
            old(ledger)@.owners.dom().filter(|k: SlotKey| k.session_id != session_id),
        ),
        final(ledger)@.releases == old(ledger)@.releases.filter(|d: DeferredRelease| d.session_id != session_id),
        final(ledger)@.current_session == if old(ledger)@.current_session == Some(session_id) {
            None
        } else {
            old(ledger)@.current_session
        },
{
    ledger.cleanup_session(session_id);
    if ledger.current_session() == Some(session_id) {
        ledger.set_current_session(None);
    }
}

/// The slot to draw for a session on a monitor: its current slot, if the
/// compositor owns it.
pub open spec fn drawable(m: LedgerModel, monitor_id: MonitorId, session_id: SessionId) -> Option<SlotKey> {
    let key = (monitor_id, session_id);
    if m.surfaces.contains_key(key) && m.surfaces[key].current_buffer is Some {
        let k = SlotKey { monitor_id, session_id, buffer: m.surfaces[key].current_buffer->Some_0 };
        if m.owners.contains_key(k) && m.owners[k] == SlotOwner::ShiftOwned {
            Some(k)
        } else {
            None
        }
    } else {
        None
    }
}

/// The slot to draw for a session on a monitor, if any.
pub fn drawable_slot(ledger: &OwnershipManager, monitor_id: MonitorId, session_id: SessionId) -> (r: Option<SlotKey>)
    ensures
        r == drawable(ledger@, monitor_id, session_id),
{
    let key = ledger.current_slot_key_for_session(monitor_id, session_id)?;
    match ledger.owner(key) {
        Some(SlotOwner::ShiftOwned) => Some(key),
        _ => None,
    }
}

/// How one monitor is drawn in a frame.
#[derive(Clone, Copy, Debug, PartialEq, Eq, Structural)]
pub enum DrawChoice {
    /// Run the transition animation between the two images.
    Animate,
    /// Draw the new session's image alone.
    NewOnly,
    /// Draw the active session's image, if it has one.
    Direct,
}

/// During a transition both images animate, a lone new image is drawn
/// as is, and otherwise the active session is drawn directly.
pub fn plan_draw(in_transition: bool, old_image: bool, new_image: bool) -> (r: DrawChoice)
    ensures
        r == (if in_transition && old_image && new_image {
            DrawChoice::Animate
        } else if in_transition && new_image {
            DrawChoice::NewOnly
        } else {
            DrawChoice::Direct
        }),
{
    if in_transition && old_image && new_image {
        DrawChoice::Animate
    } else if in_transition && new_image {
        DrawChoice::NewOnly
    } else {
        DrawChoice::Direct
    }
}

/// Transition progress in thousandths: elapsed over duration, clamped to
/// `[0, 1000]`; a zero duration is complete at once.
pub fn transition_progress_permille(elapsed_ms: u64, duration_ms: u64) -> (r: u64)
    ensures
        r == (if duration_ms == 0 || elapsed_ms >= duration_ms {
            1000
        } else {
            (elapsed_ms * 1000) / duration_ms as int
        }),
        r <= 1000,
        r == 1000 <==> (duration_ms == 0 || elapsed_ms >= duration_ms),
{
    if duration_ms == 0 || elapsed_ms >= duration_ms {
        return 1000;
    }
    let e = elapsed_ms as u128;
    let d = duration_ms as u128;
    proof {
        vstd::arithmetic::mul::lemma_mul_strict_inequality(e as int, d as int, 1000);
        vstd::arithmetic::div_mod::lemma_div_is_ordered(e * 1000, d * 1000 - 1, d as int);
        assert(e * 1000 < d * 1000);
        vstd::arithmetic::div_mod::lemma_div_by_multiple(1000, d as int);
        assert(1000 * d == d * 1000) by (nonlinear_arith);
        vstd::arithmetic::div_mod::lemma_div_is_ordered(e * 1000, d * 1000, d as int);
        vstd::arithmetic::div_mod::lemma_div_pos_is_pos(e * 1000, d as int);
        vstd::arithmetic::div_mod::lemma_fundamental_div_mod(e * 1000, d as int);
        assert((e * 1000) / (d as int) < 1000) by (nonlinear_arith)
            requires
                e * 1000 < d * 1000,
                e * 1000 == d * ((e * 1000) / (d as int)) + (e * 1000) % (d as int),
                0 <= (e * 1000) % (d as int),
                d > 0,
        ;
    }
    ((e * 1000) / d) as u64
}

/// Minimum time between two counts of open descriptors.
pub const FD_GUARD_INTERVAL_MS: u64 = 1000;

/// Too many descriptors are open: a leak in the buffer or fence plumbing.
#[derive(Clone, Copy, Debug, PartialEq, Eq, Structural)]
pub struct OpenFdGuardExceeded {
    pub count: usize,
    pub limit: usize,
}

/// Debug check on the number of open descriptors, at most once per
/// interval.
pub struct FdGuard {
    limit: usize,
    last_check_ms: u64,
}

impl FdGuard {
    pub closed spec fn limit_spec(&self) -> usize {
        self.limit
    }

    pub closed spec fn last_check_spec(&self) -> u64 {
        self.last_check_ms
    }

    pub fn new(limit: usize, now_ms: u64) -> (r: FdGuard)
        ensures
            r.limit_spec() == limit,
            r.last_check_spec() == now_ms,
    {
        FdGuard { limit, last_check_ms: now_ms }
    }

    /// Whether a count is due at `now_ms`; if so the check is recorded as
    /// made now.
    pub fn begin_check(&mut self, now_ms: u64) -> (r: bool)
        ensures
            r == (now_ms >= old(self).last_check_spec() && now_ms - old(self).last_check_spec()
                >= FD_GUARD_INTERVAL_MS),
            final(self).limit_spec() == old(self).limit_spec(),
            final(self).last_check_spec() == if r {
                now_ms
            } else {
                old(self).last_check_spec()
            },
    {
        if now_ms >= self.last_check_ms && now_ms - self.last_check_ms >= FD_GUARD_INTERVAL_MS {
            self.last_check_ms = now_ms;
            true
        } else {
            false
        }
    }

    /// Judges a count of open descriptors against the limit.
    pub fn judge(&self, count: usize) -> (r: Result<(), OpenFdGuardExceeded>)
        ensures
            count > self.limit_spec() ==> r == Err::<(), OpenFdGuardExceeded>(
                OpenFdGuardExceeded { count, limit: self.limit_spec() },
            ),
            count <= self.limit_spec() ==> r is Ok,
    {
        if count > self.limit {
            Err(OpenFdGuardExceeded { count, limit: self.limit })
        } else {
            Ok(())
        }
    }
}

} // verus!
