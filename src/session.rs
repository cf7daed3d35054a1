//! Sessions, their roles, and the decisions taken on switch and ready
//! requests.
use vstd::prelude::*;

use vstd::string::StringExecFns;

use crate::ids::{hex_text, SessionId, SESSION_PREFIX};
use crate::token::{Token, TokenError};

verus! {

/// What a session may do.
#[derive(Debug, PartialEq, Eq, PartialOrd, Ord, Copy, Clone, Structural)]
pub enum Role {
    Normal,
    Admin,
}

/// A session bound to a client.
#[derive(Clone, Debug)]
pub struct Session {
    id: SessionId,
    role: Role,
    ready: bool,
    display_name: String,
}

impl Session {
    pub fn new(id: SessionId, role: Role, ready: bool, display_name: String) -> (r: Session)
        ensures
            r.id() == id,
            r.role() == role,
            r.ready() == ready,
            r.name_spec() == display_name@,
    {
        Session { id, role, ready, display_name }
    }

    pub closed spec fn id_spec(&self) -> SessionId {
        self.id
    }

    pub closed spec fn role_spec(&self) -> Role {
        self.role
    }

    pub closed spec fn ready_spec(&self) -> bool {
        self.ready
    }

    pub closed spec fn name_spec(&self) -> Seq<char> {
        self.display_name@
    }

    /// A copy with the ready flag replaced.
    pub fn with_ready(&self, ready: bool) -> (r: Session)
        ensures
            r.id_spec() == self.id_spec(),
            r.role_spec() == self.role_spec(),
            r.ready_spec() == ready,
            r.name_spec() == self.name_spec(),
    {
        Session { id: self.id, role: self.role, ready, display_name: self.display_name.clone() }
    }

    #[verifier::when_used_as_spec(id_spec)]
    pub fn id(&self) -> (r: SessionId)
        ensures
            r == self.id_spec(),
    {
        self.id
    }

    #[verifier::when_used_as_spec(role_spec)]
    pub fn role(&self) -> (r: Role)
        ensures
            r == self.role_spec(),
    {
        self.role
    }

    #[verifier::when_used_as_spec(ready_spec)]
    pub fn ready(&self) -> (r: bool)
        ensures
            r == self.ready_spec(),
    {
        self.ready
    }

    pub fn display_name(&self) -> (r: &str)
        ensures
            r@ == self.name_spec(),
    {
        self.display_name.as_str()
    }
}

/// A session whose token was issued and that no client has bound yet.
#[derive(Debug)]
pub struct PendingSession {
    id: SessionId,
    role: Role,
    display_name: Option<String>,
}

/// The name a session gets when none was asked for.
pub open spec fn default_name(id: SessionId) -> Seq<char> {
    "Session: "@ + SESSION_PREFIX@ + hex_text(id.0 as nat)
}

impl PendingSession {
    /// A pending session with the given identifier.
    pub fn with_id(id: SessionId, display_name: Option<String>, role: Role) -> (r: PendingSession)
        ensures
            r.id() == id,
            r.role() == role,
            r.name_spec() == match display_name {
                Some(n) => Some(n@),
                None => None,
            },
    {
        PendingSession { id, role, display_name }
    }

    /// A pending session with a fresh random identifier, and the token
    /// that a client presents to bind to it.
    pub fn new(display_name: Option<String>, role: Role) -> (r: Result<(Token, PendingSession), TokenError>)
        ensures
            match r {
                Ok((_, s)) => s.role() == role && s.name_spec() == match display_name {
                    Some(n) => Some(n@),
                    None => None,
                },
                Err(e) => e is GetRandom,
            },
    {
        let token = Token::generate()?;
        Ok((token, PendingSession::with_id(SessionId::random(), display_name, role)))
    }

    /// A pending admin session and its token.
    pub fn admin(display_name: Option<String>) -> (r: Result<(Token, PendingSession), TokenError>)
        ensures
            match r {
                Ok((_, s)) => s.role() == Role::Admin && s.name_spec() == match display_name {
                    Some(n) => Some(n@),
                    None => None,
                },
                Err(e) => e is GetRandom,
            },
    {
        PendingSession::new(display_name, Role::Admin)
    }

    /// A pending normal session and its token.
    pub fn normal(display_name: Option<String>) -> (r: Result<(Token, PendingSession), TokenError>)
        ensures
            match r {
                Ok((_, s)) => s.role() == Role::Normal && s.name_spec() == match display_name {
                    Some(n) => Some(n@),
                    None => None,
                },
                Err(e) => e is GetRandom,
            },
    {
        PendingSession::new(display_name, Role::Normal)
    }

    pub closed spec fn id_spec(&self) -> SessionId {
        self.id
    }

    pub closed spec fn role_spec(&self) -> Role {
        self.role
    }

    pub closed spec fn name_spec(&self) -> Option<Seq<char>> {
        match self.display_name {
            Some(n) => Some(n@),
            None => None,
        }
    }

    #[verifier::when_used_as_spec(id_spec)]
    pub fn id(&self) -> (r: SessionId)
        ensures
            r == self.id_spec(),
    {
        self.id
    }

    #[verifier::when_used_as_spec(role_spec)]
    pub fn role(&self) -> (r: Role)
        ensures
            r == self.role_spec(),
    {
        self.role
    }

    pub fn display_name(&self) -> (r: Option<&str>)
        ensures
            match r {
                Some(n) => self.name_spec() == Some(n@),
                None => self.name_spec() is None,
            },
    {
        match &self.display_name {
            Some(n) => Some(n.as_str()),
            None => None,
        }
    }

    /// `Session: ` followed by the identifier's text form.
    pub fn default_session_name(&self) -> (r: String)
        ensures
            r@ == default_name(self.id_spec()),
    {
        let mut s = String::from_str("Session: ");
        let id = self.id.to_text();
        s.append(id.as_str());
        s
    }

    /// The session a client binds to: admins are ready at once, normal
    /// sessions start loading; an unnamed session gets the default name.
    pub fn promote(self) -> (r: Session)
        ensures
            r.id() == self.id_spec(),
            r.role() == self.role_spec(),
            r.ready() == (self.role_spec() == Role::Admin),
            r.name_spec() == match self.name_spec() {
                Some(n) => n,
                None => default_name(self.id_spec()),
            },
    {
        let name = match &self.display_name {
            Some(n) => n.clone(),
            None => self.default_session_name(),
        };
        let ready = match self.role {
            Role::Admin => true,
            Role::Normal => false,
        };
        Session { id: self.id, role: self.role, ready, display_name: name }
    }
}

/// A pending session keyed by the token that was handed out for it.
pub struct IssuedSession {
    pub token: Token,
    pub session: PendingSession,
}

/// Index of the pending session whose token equals `token`, compared in
/// constant time.
pub fn find_by_token(issued: &Vec<IssuedSession>, token: &Token) -> (r: Option<usize>)
    ensures
        match r {
            Some(i) => i < issued@.len() && issued@[i as int].token.bytes_spec() == token.bytes_spec() && forall|j: int|
                0 <= j < i ==> #[trigger] issued@[j].token.bytes_spec() != token.bytes_spec(),
            None => forall|i: int| 0 <= i < issued@.len() ==> #[trigger] issued@[i].token.bytes_spec() != token.bytes_spec(),
        },
{
    let mut i: usize = 0;
    while i < issued.len()
        invariant
            i <= issued@.len(),
            forall|j: int| 0 <= j < i ==> #[trigger] issued@[j].token.bytes_spec() != token.bytes_spec(),
        decreases issued@.len() - i,
    {
        if issued[i].token.ct_eq(token) {
            return Some(i);
        }
        i = i + 1;
    }
    None
}

/// Why a client could not authenticate.
#[derive(Clone, Copy, Debug, PartialEq, Eq, Structural)]
pub enum AuthError {
    /// The token is malformed.
    InvalidToken,
    /// No pending session was issued for the token.
    NotFound,
}

/// What the registry records of an issued session: token bytes, id, role.
pub open spec fn issued_view(s: IssuedSession) -> (Seq<u8>, SessionId, Role) {
    (s.token.bytes_spec(), s.session.id(), s.session.role())
}

/// What the registry records of an active session: id, role, ready.
pub open spec fn active_view(s: Session) -> (SessionId, Role, bool) {
    (s.id(), s.role(), s.ready())
}

/// Issued tokens waiting for a client, and the sessions clients are bound to.
pub struct SessionRegistry {
    pending: Vec<IssuedSession>,
    active: Vec<Session>,
}

impl SessionRegistry {
    pub closed spec fn pending_spec(&self) -> Seq<(Seq<u8>, SessionId, Role)> {
        Seq::new(self.pending@.len(), |i: int| issued_view(self.pending@[i]))
    }

    pub closed spec fn active_spec(&self) -> Seq<(SessionId, Role, bool)> {
        Seq::new(self.active@.len(), |i: int| active_view(self.active@[i]))
    }

    pub fn new() -> (r: SessionRegistry)
        ensures
            r.pending_spec() == Seq::<(Seq<u8>, SessionId, Role)>::empty(),
            r.active_spec() == Seq::<(SessionId, Role, bool)>::empty(),
    {
        let r = SessionRegistry { pending: Vec::new(), active: Vec::new() };
        assert(r.pending_spec() =~= Seq::<(Seq<u8>, SessionId, Role)>::empty());
        assert(r.active_spec() =~= Seq::<(SessionId, Role, bool)>::empty());
        r
    }

    /// Records a pending session under its token.
    pub fn issue(&mut self, token: Token, session: PendingSession)
        ensures
            final(self).pending_spec() == old(self).pending_spec().push(
                (token.bytes_spec(), session.id(), session.role()),
            ),
            final(self).active_spec() == old(self).active_spec(),
    {
        self.pending.push(IssuedSession { token, session });
        assert(self.pending_spec() =~= old(self).pending_spec().push(
            (token.bytes_spec(), session.id(), session.role()),
        ));
    }

    /// Binds a client to the pending session issued for its token: the
    /// session leaves the pending list and becomes active, ready at once if
    /// it is an admin session.
    pub fn authenticate(&mut self, token: &Token) -> (r: Result<Session, AuthError>)
        ensures
            final(self).active_spec().len() >= old(self).active_spec().len(),
            match r {
                Err(e) => {
                    &&& e == AuthError::NotFound
                    &&& forall|j: int|
                        0 <= j < old(self).pending_spec().len() ==> #[trigger] old(self).pending_spec()[j].0
                            != token.bytes_spec()
                    &&& final(self).pending_spec() == old(self).pending_spec()
                    &&& final(self).active_spec() == old(self).active_spec()
                },
                Ok(s) => exists|i: int|
                    {
                        &&& 0 <= i < old(self).pending_spec().len()
                        &&& #[trigger] old(self).pending_spec()[i].0 == token.bytes_spec()
                        &&& forall|j: int|
                            0 <= j < i ==> #[trigger] old(self).pending_spec()[j].0 != token.bytes_spec()
                        &&& s.id() == old(self).pending_spec()[i].1
                        &&& s.role() == old(self).pending_spec()[i].2
                        &&& s.ready() == (s.role() == Role::Admin)
                        &&& final(self).pending_spec() == old(self).pending_spec().remove(i)
                        &&& final(self).active_spec() == old(self).active_spec().push(active_view(s))
                    },
            },
    {
        let i = match find_by_token(&self.pending, token) {
            Some(i) => i,
            None => {
                assert forall|j: int|
                    0 <= j < old(self).pending_spec().len() implies #[trigger] old(self).pending_spec()[j].0
                    != token.bytes_spec() by {
                    assert(old(self).pending_spec()[j] == issued_view(self.pending@[j]));
                }
                return Err(AuthError::NotFound);
            },
        };
        let ghost old_pending = self.pending_spec();
        let issued = self.pending.remove(i);
        let session = issued.session.promote();
        let copy = session.with_ready(session.ready());
        self.active.push(copy);
        proof {
            assert(self.pending_spec() =~= old_pending.remove(i as int));
            assert(self.active_spec() =~= old(self).active_spec().push(active_view(session)));
            assert(old_pending[i as int].0 == token.bytes_spec());
            assert forall|j: int| 0 <= j < i implies #[trigger] old_pending[j].0 != token.bytes_spec() by {
                assert(old_pending[j] == issued_view(old(self).pending@[j]));
            }
        }
        Ok(session)
    }

    fn find_active(&self, id: SessionId) -> (r: Option<usize>)
        ensures
            match r {
                Some(i) => i < self.active_spec().len() && self.active_spec()[i as int].0 == id,
                None => forall|j: int| 0 <= j < self.active_spec().len() ==> #[trigger] self.active_spec()[j].0 != id,
            },
    {
        let mut i: usize = 0;
        while i < self.active.len()
            invariant
                i <= self.active@.len(),
                forall|j: int| 0 <= j < i ==> #[trigger] self.active_spec()[j].0 != id,
            decreases self.active@.len() - i,
        {
            if self.active[i].id() == id {
                return Some(i);
            }
            i = i + 1;
        }
        None
    }

    /// The active session with the given id.
    pub fn get(&self, id: SessionId) -> (r: Option<&Session>)
        ensures
            match r {
                Some(s) => s.id() == id && self.active_spec().contains(active_view(*s)),
                None => forall|j: int| 0 <= j < self.active_spec().len() ==> #[trigger] self.active_spec()[j].0 != id,
            },
    {
        match self.find_active(id) {
            Some(i) => {
                assert(self.active_spec()[i as int] == active_view(self.active@[i as int]));
                Some(&self.active[i])
            },
            None => None,
        }
    }

    /// Marks an active session ready. Returns whether it was found.
    pub fn mark_ready(&mut self, id: SessionId) -> (r: bool)
        ensures
            r == exists|i: int| 0 <= i < old(self).active_spec().len() && #[trigger] old(self).active_spec()[i].0 == id,
            final(self).pending_spec() == old(self).pending_spec(),
            !r ==> final(self).active_spec() == old(self).active_spec(),
            r ==> exists|i: int|
                0 <= i < old(self).active_spec().len() && #[trigger] old(self).active_spec()[i].0 == id
                    && final(self).active_spec() == old(self).active_spec().update(
                    i,
                    (id, old(self).active_spec()[i].1, true),
                ),
    {
        match self.find_active(id) {
            Some(i) => {
                let ready = self.active[i].with_ready(true);
                self.active.set(i, ready);
                assert(self.active_spec() =~= old(self).active_spec().update(
                    i as int,
                    (id, old(self).active_spec()[i as int].1, true),
                ));
                true
            },
            None => false,
        }
    }

    /// Drops an active session. Returns whether it was found.
    pub fn remove(&mut self, id: SessionId) -> (r: bool)
        ensures
            r == exists|i: int| 0 <= i < old(self).active_spec().len() && #[trigger] old(self).active_spec()[i].0 == id,
            final(self).pending_spec() == old(self).pending_spec(),
            !r ==> final(self).active_spec() == old(self).active_spec(),
            r ==> exists|i: int|
                0 <= i < old(self).active_spec().len() && #[trigger] old(self).active_spec()[i].0 == id
                    && final(self).active_spec() == old(self).active_spec().remove(i),
    {
        match self.find_active(id) {
            Some(i) => {
                self.active.remove(i);
                assert(self.active_spec() =~= old(self).active_spec().remove(i as int));
                true
            },
            None => false,
        }
    }
}

/// Only an authenticated admin may create sessions.
pub fn may_create_sessions(requester: Option<&Session>) -> (r: bool)
    ensures
        r == (requester.is_some() && requester.unwrap().role() == Role::Admin),
{
    match requester {
        Some(s) => s.role() == Role::Admin,
        None => false,
    }
}

/// Why a session switch was refused.
#[derive(Clone, Copy, Debug, PartialEq, Eq, Structural)]
pub enum SwitchError {
    /// The requester is not an authenticated admin.
    Forbidden,
    /// The target session is not active.
    UnknownSession,
    /// The target is a normal session that is not ready yet.
    SessionLoading,
}

/// An accepted session switch.
#[derive(Clone, Copy, Debug, PartialEq, Eq, Structural)]
pub struct SwitchPlan {
    /// The session to make active.
    pub target: SessionId,
    /// The session to animate away from, held awake meanwhile.
    pub transition_from: Option<SessionId>,
}

/// Decides a switch to `target_id`, whose session is `target` if it is
/// active. A transition is planned only when an animation and a positive
/// duration are given and the active session changes.
pub fn plan_session_switch(
    requester: Option<&Session>,
    target_id: SessionId,
    target: Option<&Session>,
    previous: Option<SessionId>,
    has_animation: bool,
    duration_ms: u64,
) -> (r: Result<SwitchPlan, SwitchError>)
    requires
        target.is_some() ==> target.unwrap().id() == target_id,
    ensures
        requester.is_none() || requester.unwrap().role() != Role::Admin ==> r == Err::<SwitchPlan, SwitchError>(
            SwitchError::Forbidden,
        ),
        requester.is_some() && requester.unwrap().role() == Role::Admin && target.is_none() ==> r == Err::<
            SwitchPlan,
            SwitchError,
        >(SwitchError::UnknownSession),
        requester.is_some() && requester.unwrap().role() == Role::Admin && target.is_some() && target.unwrap().role()
            != Role::Admin && !target.unwrap().ready() ==> r == Err::<SwitchPlan, SwitchError>(
            SwitchError::SessionLoading,
        ),
        r is Ok ==> r == Ok::<SwitchPlan, SwitchError>(
            SwitchPlan {
                target: target_id,
                transition_from: match previous {
                    Some(p) => if p != target_id && has_animation && duration_ms > 0 {
                        Some(p)
                    } else {
                        None
                    },
                    None => None,
                },
            },
        ),
        requester.is_some() && requester.unwrap().role() == Role::Admin && target.is_some() && (target.unwrap().role()
            == Role::Admin || target.unwrap().ready()) ==> r is Ok,
{
    let req = match requester {
        Some(s) => s,
        None => {
            return Err(SwitchError::Forbidden);
        },
    };
    if req.role() != Role::Admin {
        return Err(SwitchError::Forbidden);
    }
    let t = match target {
        Some(t) => t,
        None => {
            return Err(SwitchError::UnknownSession);
        },
    };
    if t.role() != Role::Admin && !t.ready() {
        return Err(SwitchError::SessionLoading);
    }
    let transition_from = match previous {
        Some(p) => if p != target_id && has_animation && duration_ms > 0 {
            Some(p)
        } else {
            None
        },
        None => None,
    };
    Ok(SwitchPlan { target: target_id, transition_from })
}

/// Why a ready notification was refused.
#[derive(Clone, Copy, Debug, PartialEq, Eq, Structural)]
pub enum ReadyError {
    /// The client is not authenticated, or its session is gone.
    Forbidden,
    /// The notification names another session.
    InvalidSessionId,
    /// Admin sessions have no loading stage.
    InvalidTransition,
}

/// Decides a `session_ready` notification from the session `requester`
/// (`None` when the client is not authenticated) naming `named`; `existing`
/// is the requester's active session. Returns the session as it becomes, or
/// `None` when it was ready already.
pub fn plan_session_ready(requester: Option<SessionId>, named: SessionId, existing: Option<&Session>) -> (r: Result<
    Option<Session>,
    ReadyError,
>)
    requires
        existing.is_some() ==> requester == Some(existing.unwrap().id()),
    ensures
        requester.is_none() ==> r == Err::<Option<Session>, ReadyError>(ReadyError::Forbidden),
        requester.is_some() && requester.unwrap() != named ==> r == Err::<Option<Session>, ReadyError>(
            ReadyError::InvalidSessionId,
        ),
        requester == Some(named) && existing.is_none() ==> r == Err::<Option<Session>, ReadyError>(
            ReadyError::Forbidden,
        ),
        requester == Some(named) && existing.is_some() ==> {
            let s = existing.unwrap();
            if s.role() == Role::Admin {
                r == Err::<Option<Session>, ReadyError>(ReadyError::InvalidTransition)
            } else if s.ready() {
                r == Ok::<Option<Session>, ReadyError>(None)
            } else {
                &&& r is Ok
                &&& r->Ok_0 is Some
                &&& r->Ok_0->Some_0.id() == s.id()
                &&& r->Ok_0->Some_0.role() == s.role()
                &&& r->Ok_0->Some_0.ready()
                &&& r->Ok_0->Some_0.name_spec() == s.name_spec()
            }
        },
{
    let me = match requester {
        Some(id) => id,
        None => {
            return Err(ReadyError::Forbidden);
        },
    };
    if me != named {
        return Err(ReadyError::InvalidSessionId);
    }
    let s = match existing {
        Some(s) => s,
        None => {
            return Err(ReadyError::Forbidden);
        },
    };
    if s.role() == Role::Admin {
        return Err(ReadyError::InvalidTransition);
    }
    if s.ready() {
        return Ok(None);
    }
    Ok(Some(s.with_ready(true)))
}

} // verus!
