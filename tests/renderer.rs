use shift::config::RenderMode;
use shift::ids::{MonitorId, SessionId};
use shift::ownership::{BufferSlot, DeferredRelease, OwnershipManager, SlotKey};
use shift::renderer::{
    drawable_slot, handle_fence_signaled, handle_session_removed, handle_swap_request, plan_draw,
    transition_progress_permille, DrawChoice, FdGuard, OpenFdGuardExceeded, SwapEffects, SwapRejection,
};
use shift::server::BufferRequestError;
use shift::swapchain::{reschedule_after_request, BufferState, RequestOutcome, SwapchainState};
use shift::touch::{TouchTracker, BTN_LEFT};

const M: MonitorId = MonitorId(1);
const S: SessionId = SessionId(2);

#[test]
fn swap_for_unknown_monitor_or_unlinked_slot_is_rejected() {
    let mut ledger = OwnershipManager::new();
    let r = handle_swap_request(&mut ledger, false, true, M, S, BufferSlot::Zero, false);
    assert_eq!(r, Err(SwapRejection::UnknownMonitor));
    assert_eq!(r.unwrap_err().reason(), "unknown_monitor");
    let r = handle_swap_request(&mut ledger, true, false, M, S, BufferSlot::Zero, false);
    assert_eq!(r, Err(SwapRejection::UnlinkedBuffer));
    assert_eq!(r.unwrap_err().reason(), "unlinked_buffer");
    assert_eq!(ledger.owner(SlotKey::new(M, S, BufferSlot::Zero)), None);
}

#[test]
fn second_fenced_swap_cancels_first_and_queues_it() {
    let mut ledger = OwnershipManager::new();
    let first = handle_swap_request(&mut ledger, true, true, M, S, BufferSlot::Zero, true);
    assert_eq!(first, Ok(SwapEffects { cancel_waiter: None, arm_waiter: true }));
    let second = handle_swap_request(&mut ledger, true, true, M, S, BufferSlot::One, true);
    assert_eq!(
        second,
        Ok(SwapEffects { cancel_waiter: Some(SlotKey::new(M, S, BufferSlot::Zero)), arm_waiter: true })
    );
    handle_fence_signaled(&mut ledger, SlotKey::new(M, S, BufferSlot::One));
    assert_eq!(ledger.current_slot_key_for_session(M, S), Some(SlotKey::new(M, S, BufferSlot::One)));
    assert_eq!(
        ledger.take_deferred_releases(),
        vec![DeferredRelease { monitor_id: M, session_id: S, buffer: BufferSlot::Zero }]
    );
}

#[test]
fn signal_queues_replaced_current_buffer() {
    let mut ledger = OwnershipManager::new();
    handle_swap_request(&mut ledger, true, true, M, S, BufferSlot::Zero, false).unwrap();
    handle_swap_request(&mut ledger, true, true, M, S, BufferSlot::One, true).unwrap();
    assert!(ledger.take_deferred_releases().is_empty());
    handle_fence_signaled(&mut ledger, SlotKey::new(M, S, BufferSlot::One));
    assert_eq!(
        ledger.take_deferred_releases(),
        vec![DeferredRelease { monitor_id: M, session_id: S, buffer: BufferSlot::Zero }]
    );
}

#[test]
fn drawable_slot_needs_shift_ownership() {
    let mut ledger = OwnershipManager::new();
    assert_eq!(drawable_slot(&ledger, M, S), None);
    handle_swap_request(&mut ledger, true, true, M, S, BufferSlot::One, false).unwrap();
    assert_eq!(drawable_slot(&ledger, M, S), Some(SlotKey::new(M, S, BufferSlot::One)));
    ledger.mark_slot_client_owned(SlotKey::new(M, S, BufferSlot::One));
    assert_eq!(drawable_slot(&ledger, M, S), None);
}

#[test]
fn removing_current_session_clears_it() {
    let mut ledger = OwnershipManager::new();
    ledger.set_current_session(Some(S));
    handle_swap_request(&mut ledger, true, true, M, S, BufferSlot::Zero, false).unwrap();
    handle_session_removed(&mut ledger, S);
    assert_eq!(ledger.current_session(), None);
    assert_eq!(ledger.current_slot_key_for_session(M, S), None);
}

#[test]
fn draw_choice() {
    assert_eq!(plan_draw(true, true, true), DrawChoice::Animate);
    assert_eq!(plan_draw(true, false, true), DrawChoice::NewOnly);
    assert_eq!(plan_draw(true, true, false), DrawChoice::Direct);
    assert_eq!(plan_draw(false, true, true), DrawChoice::Direct);
}

#[test]
fn transition_progress() {
    assert_eq!(transition_progress_permille(0, 400), 0);
    assert_eq!(transition_progress_permille(100, 400), 250);
    assert_eq!(transition_progress_permille(399, 400), 997);
    assert_eq!(transition_progress_permille(400, 400), 1000);
    assert_eq!(transition_progress_permille(5, 0), 1000);
    assert_eq!(transition_progress_permille(u64::MAX - 1, u64::MAX), 999);
}

#[test]
fn swapchain_cycle() {
    let mut sc = SwapchainState::new();
    assert_eq!(sc.acquire_next(), Some(BufferSlot::Zero));
    assert_eq!(sc.state(BufferSlot::Zero), BufferState::Acquired);
    sc.mark_busy(BufferSlot::Zero);
    assert_eq!(sc.acquire_next(), Some(BufferSlot::One));
    sc.rollback();
    assert_eq!(sc.state(BufferSlot::One), BufferState::Free);
    sc.mark_busy(BufferSlot::One);
    assert_eq!(sc.acquire_next(), None);
    sc.mark_released(BufferSlot::Zero);
    assert_eq!(sc.state(BufferSlot::Zero), BufferState::Free);
    assert_eq!(sc.acquire_next(), Some(BufferSlot::Zero));
    sc.rollback();
    sc.rollback();
    assert_eq!(sc.state(BufferSlot::Zero), BufferState::Free);
    assert_eq!(sc.state(BufferSlot::One), BufferState::Busy);
}

#[test]
fn eager_mode_reschedules_unless_refused() {
    assert!(reschedule_after_request(RenderMode::Eager, RequestOutcome::Accepted));
    assert!(reschedule_after_request(RenderMode::Eager, RequestOutcome::Failed));
    assert!(!reschedule_after_request(
        RenderMode::Eager,
        RequestOutcome::Refused(BufferRequestError::SessionSleeping)
    ));
    assert!(!reschedule_after_request(RenderMode::Scheduled, RequestOutcome::Accepted));
}

#[test]
fn first_touch_drives_pointer() {
    let mut t = TouchTracker::new();
    assert_eq!(BTN_LEFT, 272);
    assert!(t.touch_down(5));
    assert!(!t.touch_down(6));
    assert_eq!(t.primary(), Some(5));
    assert!(t.touch_motion(5));
    assert!(!t.touch_motion(6));
    assert!(!t.touch_up(6));
    assert_eq!(t.primary(), Some(5));
    assert!(t.touch_down(7) == false);
    assert!(t.touch_up(5));
    assert_eq!(t.primary(), Some(7));
    assert!(t.touch_up(7));
    assert_eq!(t.primary(), None);
}

#[test]
fn cancel_drops_primary() {
    let mut t = TouchTracker::new();
    assert!(!t.touch_cancel());
    t.touch_down(1);
    t.touch_down(2);
    assert!(t.touch_cancel());
    assert_eq!(t.primary(), None);
    assert!(t.touch_down(2));
}

#[test]
fn fd_guard_checks_once_per_interval() {
    let mut g = FdGuard::new(64, 1000);
    assert!(!g.begin_check(1500));
    assert!(g.begin_check(2000));
    assert!(!g.begin_check(2999));
    assert!(g.begin_check(3000));
    assert!(!g.begin_check(10));
    assert_eq!(g.judge(64), Ok(()));
    assert_eq!(g.judge(65), Err(OpenFdGuardExceeded { count: 65, limit: 64 }));
}
