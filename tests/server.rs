use shift::ids::{ClientId, MonitorId, SessionId};
use shift::ownership::BufferSlot;
use shift::server::{BufferOwner, BufferRequestError, ServerLedger, SwapBuffers};

const ADMIN: SessionId = SessionId(1);
const OTHER: SessionId = SessionId(2);
const M: MonitorId = MonitorId(10);
const C: ClientId = ClientId(100);

fn ledger_with_active_admin() -> ServerLedger {
    let mut ledger = ServerLedger::new();
    ledger.update_active_session(Some(ADMIN), 0);
    ledger
}

#[test]
fn buffer_request_in_sleeping_session_is_rejected() {
    let mut ledger = ledger_with_active_admin();
    let r = ledger.buffer_request(C, OTHER, M, BufferSlot::Zero, 5);
    assert_eq!(r, Err(BufferRequestError::SessionSleeping));
    assert_eq!(r.unwrap_err().code(), "session_sleeping");
    assert_eq!(ledger.owner(OTHER, M, BufferSlot::Zero), BufferOwner::Client);
    assert_eq!(ledger.buffer_request_ack(OTHER, M, BufferSlot::Zero), None);
}

#[test]
fn awake_session_request_is_forwarded_once() {
    let mut ledger = ledger_with_active_admin();
    let r = ledger.buffer_request(C, ADMIN, M, BufferSlot::Zero, 5);
    assert_eq!(r, Ok(SwapBuffers { monitor_id: M, buffer: BufferSlot::Zero, session_id: ADMIN }));
    let again = ledger.buffer_request(C, ADMIN, M, BufferSlot::One, 5);
    assert_eq!(again, Err(BufferRequestError::BufferRequestInflight));
    assert_eq!(again.unwrap_err().code(), "buffer_request_inflight");
}

#[test]
fn ack_transfers_ownership_to_shift() {
    let mut ledger = ledger_with_active_admin();
    ledger.buffer_request(C, ADMIN, M, BufferSlot::Zero, 5).unwrap();
    assert_eq!(ledger.buffer_request_ack(ADMIN, M, BufferSlot::Zero), Some(C));
    assert_eq!(ledger.owner(ADMIN, M, BufferSlot::Zero), BufferOwner::Shift);
    let r = ledger.buffer_request(C, ADMIN, M, BufferSlot::Zero, 5);
    assert_eq!(r, Err(BufferRequestError::OwnershipViolation));
    assert_eq!(r.unwrap_err().code(), "ownership_violation");
    ledger.buffer_consumed(ADMIN, M, BufferSlot::Zero);
    assert_eq!(ledger.owner(ADMIN, M, BufferSlot::Zero), BufferOwner::Client);
    assert!(ledger.buffer_request(C, ADMIN, M, BufferSlot::Zero, 5).is_ok());
}

#[test]
fn rejection_drops_request_without_ownership_change() {
    let mut ledger = ledger_with_active_admin();
    ledger.buffer_request(C, ADMIN, M, BufferSlot::One, 5).unwrap();
    assert_eq!(ledger.buffer_request_rejected(ADMIN, M, BufferSlot::One), Some(C));
    assert_eq!(ledger.buffer_request_rejected(ADMIN, M, BufferSlot::One), None);
    assert_eq!(ledger.owner(ADMIN, M, BufferSlot::One), BufferOwner::Client);
    assert!(ledger.buffer_request(C, ADMIN, M, BufferSlot::One, 5).is_ok());
}

#[test]
fn framebuffer_link_resets_surface() {
    let mut ledger = ledger_with_active_admin();
    ledger.buffer_request(C, ADMIN, M, BufferSlot::Zero, 5).unwrap();
    ledger.buffer_request_ack(ADMIN, M, BufferSlot::Zero);
    ledger.buffer_request(C, ADMIN, M, BufferSlot::One, 5).unwrap();
    ledger.framebuffer_linked(ADMIN, M);
    assert_eq!(ledger.owner(ADMIN, M, BufferSlot::Zero), BufferOwner::Client);
    assert_eq!(ledger.buffer_request_ack(ADMIN, M, BufferSlot::One), None);
}

#[test]
fn monitor_offline_drops_its_state() {
    let mut ledger = ledger_with_active_admin();
    ledger.buffer_request(C, ADMIN, M, BufferSlot::Zero, 5).unwrap();
    ledger.buffer_request_ack(ADMIN, M, BufferSlot::Zero);
    ledger.buffer_request(C, ADMIN, M, BufferSlot::One, 5).unwrap();
    ledger.monitor_offline(M);
    assert_eq!(ledger.owner(ADMIN, M, BufferSlot::Zero), BufferOwner::Client);
    assert_eq!(ledger.buffer_request_ack(ADMIN, M, BufferSlot::One), None);
}

#[test]
fn held_awake_session_expires() {
    let mut ledger = ledger_with_active_admin();
    assert!(ledger.keep_session_awake_for(OTHER, 100, 1000));
    assert!(!ledger.keep_session_awake_for(OTHER, 0, 1000));
    assert!(ledger.is_session_awake(OTHER, 1050));
    assert!(!ledger.is_session_awake(OTHER, 1100));
    let slept = ledger.prune_expired_awake_sessions(1100);
    assert_eq!(slept, vec![OTHER]);
    assert!(!ledger.is_session_awake(OTHER, 0));
    assert!(ledger.is_session_awake(ADMIN, 1100));
}

#[test]
fn loading_sessions_are_awake() {
    let mut ledger = ledger_with_active_admin();
    ledger.mark_loading(OTHER);
    let changes = ledger.set_awake_sessions(Some(ADMIN), 0);
    assert_eq!(changes.woke_up, vec![OTHER]);
    assert!(changes.went_to_sleep.is_empty());
    assert!(ledger.buffer_request(C, OTHER, M, BufferSlot::Zero, 0).is_ok());
    ledger.mark_ready(OTHER);
    let changes = ledger.set_awake_sessions(Some(ADMIN), 0);
    assert_eq!(changes.went_to_sleep, vec![OTHER]);
    assert!(!ledger.is_session_awake(OTHER, 0));
}

#[test]
fn switching_active_session_reports_changes() {
    let mut ledger = ledger_with_active_admin();
    let changes = ledger.update_active_session(Some(OTHER), 0);
    assert_eq!(changes.went_to_sleep, vec![ADMIN]);
    assert_eq!(changes.woke_up, vec![OTHER]);
    assert_eq!(ledger.current_session(), Some(OTHER));
}

#[test]
fn transition_keeps_previous_session_awake_until_deadline() {
    let mut ledger = ledger_with_active_admin();
    ledger.keep_session_awake_for(ADMIN, 500, 0);
    let changes = ledger.update_active_session(Some(OTHER), 10);
    assert!(changes.went_to_sleep.is_empty());
    assert!(ledger.is_session_awake(ADMIN, 10));
    let changes = ledger.update_active_session(Some(OTHER), 600);
    assert_eq!(changes.went_to_sleep, vec![ADMIN]);
}

#[test]
fn session_removal_clears_its_state() {
    let mut ledger = ledger_with_active_admin();
    ledger.buffer_request(C, ADMIN, M, BufferSlot::Zero, 0).unwrap();
    ledger.buffer_request_ack(ADMIN, M, BufferSlot::Zero);
    assert!(ledger.session_removed(C, ADMIN));
    assert!(!ledger.is_session_awake(ADMIN, 0));
    assert_eq!(ledger.owner(ADMIN, M, BufferSlot::Zero), BufferOwner::Client);
    assert!(!ledger.session_removed(C, OTHER));
}
