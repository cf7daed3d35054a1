use shift::config::{Config, RenderMode, DEFAULT_SOCKET_PATH};
use shift::events::{KeyEvent, KeyState};
use shift::ids::SessionId;
use shift::session::{plan_session_ready, plan_session_switch, ReadyError, Role, Session, SwitchError, SwitchPlan};

fn admin() -> Session {
    Session::new(SessionId(1), Role::Admin, true, "admin".to_string())
}

fn normal(ready: bool) -> Session {
    Session::new(SessionId(2), Role::Normal, ready, "desk".to_string())
}

#[test]
fn session_accessors_and_with_ready() {
    let s = normal(false);
    assert_eq!(s.id(), SessionId(2));
    assert_eq!(s.role(), Role::Normal);
    assert!(!s.ready());
    assert_eq!(s.display_name(), "desk");
    let r = s.with_ready(true);
    assert!(r.ready());
    assert_eq!(r.display_name(), "desk");
    assert_eq!(r.id(), s.id());
}

#[test]
fn switch_requires_admin() {
    let n = normal(true);
    assert_eq!(plan_session_switch(None, n.id(), Some(&n), None, false, 0), Err(SwitchError::Forbidden));
    assert_eq!(plan_session_switch(Some(&n), n.id(), Some(&n), None, false, 0), Err(SwitchError::Forbidden));
}

#[test]
fn switch_rejects_unknown_and_loading_targets() {
    let a = admin();
    assert_eq!(plan_session_switch(Some(&a), SessionId(9), None, None, false, 0), Err(SwitchError::UnknownSession));
    let n = normal(false);
    assert_eq!(plan_session_switch(Some(&a), n.id(), Some(&n), None, false, 0), Err(SwitchError::SessionLoading));
}

#[test]
fn switch_plans_transition_only_when_animated_and_changing() {
    let a = admin();
    let n = normal(true);
    assert_eq!(
        plan_session_switch(Some(&a), n.id(), Some(&n), Some(a.id()), true, 300),
        Ok(SwitchPlan { target: n.id(), transition_from: Some(a.id()) })
    );
    assert_eq!(
        plan_session_switch(Some(&a), n.id(), Some(&n), Some(a.id()), true, 0),
        Ok(SwitchPlan { target: n.id(), transition_from: None })
    );
    assert_eq!(
        plan_session_switch(Some(&a), n.id(), Some(&n), Some(n.id()), true, 300),
        Ok(SwitchPlan { target: n.id(), transition_from: None })
    );
    assert_eq!(
        plan_session_switch(Some(&a), a.id(), Some(&a), None, false, 0),
        Ok(SwitchPlan { target: a.id(), transition_from: None })
    );
}

#[test]
fn ready_decisions() {
    let n = normal(false);
    assert!(matches!(plan_session_ready(None, n.id(), None), Err(ReadyError::Forbidden)));
    assert!(matches!(plan_session_ready(Some(n.id()), SessionId(5), Some(&n)), Err(ReadyError::InvalidSessionId)));
    assert!(matches!(plan_session_ready(Some(n.id()), n.id(), None), Err(ReadyError::Forbidden)));
    let a = admin();
    assert!(matches!(plan_session_ready(Some(a.id()), a.id(), Some(&a)), Err(ReadyError::InvalidTransition)));
    let done = normal(true);
    assert!(matches!(plan_session_ready(Some(done.id()), done.id(), Some(&done)), Ok(None)));
    match plan_session_ready(Some(n.id()), n.id(), Some(&n)) {
        Ok(Some(s)) => {
            assert!(s.ready());
            assert_eq!(s.id(), n.id());
        }
        _ => panic!("expected the session to become ready"),
    }
}

#[test]
fn config_defaults_and_setters() {
    let mut c = Config::from_token("tok");
    assert_eq!(c.token(), "tok");
    assert_eq!(c.socket_path(), DEFAULT_SOCKET_PATH);
    assert_eq!(c.socket_path(), "/tmp/shift.sock");
    assert_eq!(c.render_node_path(), None);
    assert_eq!(c.render_mode(), RenderMode::Scheduled);
    assert_eq!(c.requested_opengl_version(), (3, 3));
    c.set_token("other").set_render_mode(RenderMode::Eager).opengl_version(4, 6);
    c.set_socket_path("/run/s.sock");
    c.set_render_node_path("/dev/dri/renderD129");
    assert_eq!(c.token(), "other");
    assert_eq!(c.render_mode(), RenderMode::Eager);
    assert_eq!(c.requested_opengl_version(), (4, 6));
    assert_eq!(c.socket_path(), "/run/s.sock");
    assert_eq!(c.render_node_path(), Some("/dev/dri/renderD129"));
}

#[test]
fn key_event_pressed() {
    let down = KeyEvent { device: 1, time_usec: 2, key: 30, state: KeyState::Pressed };
    let up = KeyEvent { state: KeyState::Released, ..down };
    assert!(down.is_pressed());
    assert!(!up.is_pressed());
}
