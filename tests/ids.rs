use shift::ids::{parse_hex, IdParseError, MonitorId, SessionId};
use shift::session::{find_by_token, may_create_sessions, AuthError, IssuedSession, PendingSession, Role, SessionRegistry};
use shift::token::{Token, TOKEN_LEN};

#[test]
fn session_id_text_form() {
    assert_eq!(SessionId(0x1a2b).to_text(), "se_1a2b");
    assert_eq!(SessionId(0).to_text(), "se_0");
    assert_eq!(MonitorId(u64::MAX).to_text(), "mon_ffffffffffffffff");
}

#[test]
fn id_text_reads_back() {
    for v in [0u64, 1, 15, 16, 255, 0xdead_beef, u64::MAX] {
        assert_eq!(SessionId::parse(&SessionId(v).to_text()), Ok(SessionId(v)));
        assert_eq!(MonitorId::parse(&MonitorId(v).to_text()), Ok(MonitorId(v)));
    }
}

#[test]
fn id_parse_errors() {
    assert_eq!(SessionId::parse("mon_12"), Err(IdParseError::InvalidPrefix));
    assert_eq!(SessionId::parse("se"), Err(IdParseError::InvalidPrefix));
    assert_eq!(SessionId::parse("se_"), Err(IdParseError::InvalidHex));
    assert_eq!(SessionId::parse("se_xyz"), Err(IdParseError::InvalidHex));
    assert_eq!(SessionId::parse("se_10000000000000000"), Err(IdParseError::InvalidHex));
    assert_eq!(MonitorId::parse("mon_AbC"), Ok(MonitorId(0xabc)));
}

#[test]
fn hex_parsing_matches_std() {
    for s in ["0", "+ff", "FF", "ffffffffffffffff", "", "+", "-1", "1g", "00000000000000001", "10000000000000000"] {
        assert_eq!(parse_hex(s), u64::from_str_radix(s, 16).ok(), "input {s:?}");
    }
}

#[test]
fn promote_sets_ready_and_default_name() {
    let admin = PendingSession::with_id(SessionId(0xab), None, Role::Admin).promote();
    assert!(admin.ready());
    assert_eq!(admin.role(), Role::Admin);
    assert_eq!(admin.display_name(), "Session: se_ab");
    let normal = PendingSession::with_id(SessionId(3), Some("desk".to_string()), Role::Normal).promote();
    assert!(!normal.ready());
    assert_eq!(normal.display_name(), "desk");
    assert_eq!(normal.id(), SessionId(3));
}

#[test]
fn pending_session_found_by_token() {
    let issued = vec![
        IssuedSession {
            token: Token::from_decoded(vec![1u8; TOKEN_LEN]).unwrap(),
            session: PendingSession::with_id(SessionId(1), None, Role::Normal),
        },
        IssuedSession {
            token: Token::from_decoded(vec![2u8; TOKEN_LEN]).unwrap(),
            session: PendingSession::with_id(SessionId(2), None, Role::Admin),
        },
    ];
    let probe = Token::from_decoded(vec![2u8; TOKEN_LEN]).unwrap();
    assert_eq!(find_by_token(&issued, &probe), Some(1));
    let missing = Token::from_decoded(vec![3u8; TOKEN_LEN]).unwrap();
    assert_eq!(find_by_token(&issued, &missing), None);
    assert_eq!(issued[1].session.id(), SessionId(2));
}

#[test]
fn registry_authenticates_once_per_token() {
    let mut reg = SessionRegistry::new();
    reg.issue(Token::from_decoded(vec![4u8; TOKEN_LEN]).unwrap(), PendingSession::with_id(SessionId(40), None, Role::Normal));
    reg.issue(Token::from_decoded(vec![5u8; TOKEN_LEN]).unwrap(), PendingSession::with_id(SessionId(50), None, Role::Admin));
    let probe = Token::from_decoded(vec![4u8; TOKEN_LEN]).unwrap();
    let s = reg.authenticate(&probe).unwrap();
    assert_eq!(s.id(), SessionId(40));
    assert!(!s.ready());
    assert!(matches!(reg.authenticate(&probe), Err(AuthError::NotFound)));
    assert_eq!(reg.get(SessionId(40)).map(|s| s.id()), Some(SessionId(40)));
    assert!(!may_create_sessions(reg.get(SessionId(40))));
    assert!(reg.mark_ready(SessionId(40)));
    assert!(reg.get(SessionId(40)).unwrap().ready());
    let admin = reg.authenticate(&Token::from_decoded(vec![5u8; TOKEN_LEN]).unwrap()).unwrap();
    assert!(admin.ready());
    assert!(may_create_sessions(Some(&admin)));
    assert!(reg.remove(SessionId(40)));
    assert!(reg.get(SessionId(40)).is_none());
    assert!(!reg.remove(SessionId(40)));
    assert!(!may_create_sessions(None));
}

#[test]
fn issued_sessions_get_tokens_and_random_ids() {
    let (t1, a) = PendingSession::admin(Some("root".to_string())).unwrap();
    let (t2, b) = PendingSession::normal(None).unwrap();
    assert_eq!(a.role(), Role::Admin);
    assert_eq!(a.display_name(), Some("root"));
    assert_eq!(b.role(), Role::Normal);
    assert_eq!(b.display_name(), None);
    assert!(!t1.ct_eq(&t2));
    assert_ne!(a.id(), b.id());
    assert_ne!(SessionId::random(), SessionId::random());
    assert_ne!(MonitorId::random(), MonitorId::random());
    let promoted = b.promote();
    assert_eq!(promoted.display_name(), format!("Session: {}", promoted.id().to_text()));
}
