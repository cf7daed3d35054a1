use shift::fences::{FenceTaskHandle, FenceWaits};

#[test]
fn completion_fires_once() {
    let mut w = FenceWaits::new();
    let arm = w.schedule();
    assert_eq!(arm.handle, FenceTaskHandle(1));
    assert!(w.complete(arm));
    assert!(!w.complete(arm));
}

#[test]
fn cancelled_wait_never_fires() {
    let mut w = FenceWaits::new();
    let arm = w.schedule();
    assert!(w.cancel(arm.handle));
    assert!(!w.cancel(arm.handle));
    assert!(!w.complete(arm));
    assert!(w.reschedule(arm.handle).is_none());
}

#[test]
fn reschedule_replaces_the_wait_set() {
    let mut w = FenceWaits::new();
    let first = w.schedule();
    let second = w.schedule();
    assert_eq!(second.handle, FenceTaskHandle(2));
    let again = w.reschedule(first.handle).unwrap();
    assert_eq!(again.handle, first.handle);
    assert!(!w.complete(first));
    assert!(w.complete(again));
    assert!(w.complete(second));
}
