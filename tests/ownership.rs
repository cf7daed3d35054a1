use shift::ids::{MonitorId, SessionId};
use shift::ownership::{BufferSlot, DeferredRelease, OwnershipManager, SlotKey, SlotOwner};

const M: MonitorId = MonitorId(1);
const S: SessionId = SessionId(7);

fn key(b: BufferSlot) -> SlotKey {
    SlotKey::new(M, S, b)
}

#[test]
fn buffer_slot_from_index() {
    assert_eq!(BufferSlot::from_index(0), Some(BufferSlot::Zero));
    assert_eq!(BufferSlot::from_index(1), Some(BufferSlot::One));
    assert_eq!(BufferSlot::from_index(2), None);
    assert_eq!(BufferSlot::One.index(), 1);
}

#[test]
fn double_swap_cancels_pending() {
    let mut ledger = OwnershipManager::new();
    ledger.set_current_session(Some(S));
    let first = ledger.apply_swap_request(M, S, BufferSlot::Zero, true);
    assert_eq!(first.canceled_pending, None);
    assert_eq!(first.previous_to_release, None);
    let second = ledger.apply_swap_request(M, S, BufferSlot::One, true);
    assert_eq!(second.canceled_pending, Some(BufferSlot::Zero));
    ledger.queue_buffer_release(M, S, BufferSlot::Zero);
    assert_eq!(ledger.current_slot_key(M), None);
    assert_eq!(ledger.apply_acquire_fence_signaled(key(BufferSlot::Zero)), None);
    assert_eq!(ledger.current_slot_key(M), None);
    assert_eq!(ledger.apply_acquire_fence_signaled(key(BufferSlot::One)), None);
    assert_eq!(ledger.current_slot_key(M), Some(key(BufferSlot::One)));
    assert_eq!(
        ledger.take_deferred_releases(),
        vec![DeferredRelease { monitor_id: M, session_id: S, buffer: BufferSlot::Zero }]
    );
}

#[test]
fn fence_signal_matches_unfenced_swap() {
    let mut fenced = OwnershipManager::new();
    let mut direct = OwnershipManager::new();
    fenced.apply_swap_request(M, S, BufferSlot::Zero, false);
    direct.apply_swap_request(M, S, BufferSlot::Zero, false);
    fenced.apply_swap_request(M, S, BufferSlot::One, true);
    let released = fenced.apply_acquire_fence_signaled(key(BufferSlot::One));
    let r = direct.apply_swap_request(M, S, BufferSlot::One, false);
    assert_eq!(released, Some(BufferSlot::Zero));
    assert_eq!(r.previous_to_release, Some(BufferSlot::Zero));
    assert_eq!(fenced.current_slot_key_for_session(M, S), direct.current_slot_key_for_session(M, S));
    assert_eq!(fenced.owner(key(BufferSlot::One)), Some(SlotOwner::ShiftOwned));
}

#[test]
fn unfenced_swap_releases_previous() {
    let mut ledger = OwnershipManager::new();
    ledger.apply_swap_request(M, S, BufferSlot::Zero, false);
    let r = ledger.apply_swap_request(M, S, BufferSlot::One, false);
    assert_eq!(r.previous_to_release, Some(BufferSlot::Zero));
    assert_eq!(r.canceled_pending, None);
    assert_eq!(ledger.current_slot_key_for_session(M, S), Some(key(BufferSlot::One)));
}

#[test]
fn resubmitting_current_buffer_releases_nothing() {
    let mut ledger = OwnershipManager::new();
    ledger.apply_swap_request(M, S, BufferSlot::Zero, false);
    let r = ledger.apply_swap_request(M, S, BufferSlot::Zero, false);
    assert_eq!(r.previous_to_release, None);
    assert_eq!(r.canceled_pending, None);
}

#[test]
fn stale_fence_signal_is_ignored() {
    let mut ledger = OwnershipManager::new();
    assert_eq!(ledger.apply_acquire_fence_signaled(key(BufferSlot::Zero)), None);
    ledger.apply_swap_request(M, S, BufferSlot::Zero, false);
    assert_eq!(ledger.apply_acquire_fence_signaled(key(BufferSlot::Zero)), None);
    assert_eq!(ledger.current_slot_key_for_session(M, S), Some(key(BufferSlot::Zero)));
}

#[test]
fn release_queue_deduplicates_and_drains() {
    let mut ledger = OwnershipManager::new();
    ledger.queue_buffer_release(M, S, BufferSlot::One);
    ledger.queue_buffer_release(M, S, BufferSlot::One);
    ledger.queue_buffer_release(M, S, BufferSlot::Zero);
    assert_eq!(ledger.take_deferred_releases().len(), 2);
    assert!(ledger.take_deferred_releases().is_empty());
}

#[test]
fn ownership_marks_follow_last_write() {
    let mut ledger = OwnershipManager::new();
    assert_eq!(ledger.owner(key(BufferSlot::Zero)), None);
    ledger.mark_slot_client_owned(key(BufferSlot::Zero));
    assert_eq!(ledger.owner(key(BufferSlot::Zero)), Some(SlotOwner::ClientOwned));
    ledger.mark_slot_shift_owned(key(BufferSlot::Zero));
    assert_eq!(ledger.owner(key(BufferSlot::Zero)), Some(SlotOwner::ShiftOwned));
    assert_eq!(ledger.owner(key(BufferSlot::One)), None);
}

#[test]
fn cleanup_monitor_drops_only_that_monitor() {
    let other = MonitorId(2);
    let mut ledger = OwnershipManager::new();
    ledger.apply_swap_request(M, S, BufferSlot::Zero, false);
    ledger.apply_swap_request(other, S, BufferSlot::One, false);
    ledger.queue_buffer_release(M, S, BufferSlot::One);
    ledger.queue_buffer_release(other, S, BufferSlot::Zero);
    ledger.cleanup_monitor(M);
    assert_eq!(ledger.owner(key(BufferSlot::Zero)), None);
    assert_eq!(ledger.current_slot_key_for_session(M, S), None);
    assert_eq!(ledger.current_slot_key_for_session(other, S), Some(SlotKey::new(other, S, BufferSlot::One)));
    assert_eq!(
        ledger.take_deferred_releases(),
        vec![DeferredRelease { monitor_id: other, session_id: S, buffer: BufferSlot::Zero }]
    );
}

#[test]
fn cleanup_session_drops_only_that_session() {
    let other = SessionId(8);
    let mut ledger = OwnershipManager::new();
    ledger.apply_swap_request(M, S, BufferSlot::Zero, false);
    ledger.apply_swap_request(M, other, BufferSlot::Zero, false);
    ledger.cleanup_session(S);
    assert_eq!(ledger.current_slot_key_for_session(M, S), None);
    assert_eq!(ledger.owner(key(BufferSlot::Zero)), None);
    assert_eq!(ledger.current_slot_key_for_session(M, other), Some(SlotKey::new(M, other, BufferSlot::Zero)));
}

#[test]
fn ensure_monitors_creates_empty_surfaces_for_current_session() {
    let mut ledger = OwnershipManager::new();
    ledger.ensure_current_session_monitors(&[M]);
    assert_eq!(ledger.current_session(), None);
    ledger.set_current_session(Some(S));
    ledger.ensure_current_session_monitors(&[M, MonitorId(2)]);
    assert_eq!(ledger.current_slot_key(M), None);
    ledger.apply_swap_request(M, S, BufferSlot::One, false);
    ledger.ensure_current_session_monitors(&[M]);
    assert_eq!(ledger.current_slot_key(M), Some(key(BufferSlot::One)));
}
