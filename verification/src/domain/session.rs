//! Session ownership and session state.
//!
//! A session is the only scope in which Switchyard guarantees FIFO order. It
//! exists implicitly: sending with a session identifier puts messages in it, and
//! a record appears here the first time the session is locked or given state. A
//! session with no record is unlocked and holds no state.
//!
//! A session lock is exclusive: one receiver owns the session until it releases
//! the lock or the deadline elapses. It is separate from the per-message locks a
//! receiver takes inside the session: releasing a session does not settle the
//! messages already locked in it, which keep their own deadlines.

use vstd::prelude::*;

use crate::domain::identifier::SessionId;
use crate::domain::message::LockToken;
use crate::domain::time::Timestamp;
use crate::domain::wire::Wire;

verus! {

/// One receiver's exclusive claim on a session.
#[derive(Clone, Copy, Debug, PartialEq, Eq, Structural)]
pub struct SessionLock {
    pub token: LockToken,
    pub locked_until: Timestamp,
}

impl DeepView for SessionLock {
    type V = SessionLock;

    open spec fn deep_view(&self) -> SessionLock {
        *self
    }
}

/// The replicated state of one session.
#[derive(Debug, PartialEq, Eq)]
pub struct SessionRecord {
    /// `None` when no receiver has ever held the session. A lock whose deadline
    /// has passed stays here until a sweep or the next acceptance clears it, so
    /// this being `Some` does not mean the session is held.
    pub lock: Option<SessionLock>,
    /// Opaque state a receiver keeps alongside the session. It outlives any one
    /// receiver: releasing the session leaves it in place.
    pub state: Vec<u8>,
}

pub struct SessionView {
    pub lock: Option<SessionLock>,
    pub state: Seq<u8>,
}

impl DeepView for SessionRecord {
    type V = SessionView;

    open spec fn deep_view(&self) -> SessionView {
        SessionView { lock: self.lock, state: self.state@ }
    }
}

/// A session that was never locked or given state.
pub open spec fn fresh_session() -> SessionView {
    SessionView { lock: None, state: Seq::empty() }
}

impl Default for SessionRecord {
    fn default() -> (record: Self)
        ensures
            record.deep_view() == fresh_session(),
    {
        SessionRecord { lock: None, state: Vec::new() }
    }
}

/// The lock, if one is actually held at `now`.
pub open spec fn live_lock(record: SessionView, now: Timestamp) -> Option<SessionLock> {
    match record.lock {
        Some(lock) => if lock.locked_until.0 > now.0 {
            Some(lock)
        } else {
            None
        },
        None => None,
    }
}

impl SessionRecord {
    /// The lock, if one is actually held at `now`.
    pub fn live_lock_at(&self, now: Timestamp) -> (lock: Option<SessionLock>)
        ensures
            lock == live_lock(self.deep_view(), now),
    {
        match self.lock {
            Some(lock) => if lock.locked_until.0 > now.0 {
                Some(lock)
            } else {
                None
            },
            None => None,
        }
    }
}

/// The session lock a command presents in order to act inside a session.
#[derive(Debug, PartialEq, Eq)]
pub struct SessionHold {
    pub session_id: SessionId,
    pub token: LockToken,
}

pub struct HoldView {
    pub session_id: Seq<char>,
    pub token: LockToken,
}

impl DeepView for SessionHold {
    type V = HoldView;

    open spec fn deep_view(&self) -> HoldView {
        HoldView { session_id: self.session_id.deep_view(), token: self.token }
    }
}

impl Clone for SessionHold {
    fn clone(&self) -> (copy: Self)
        ensures
            copy.deep_view() == self.deep_view(),
    {
        SessionHold { session_id: self.session_id.clone(), token: self.token }
    }
}

impl SessionHold {
    pub fn new(session_id: SessionId, token: LockToken) -> (hold: SessionHold)
        ensures
            hold.deep_view() == (HoldView { session_id: session_id.deep_view(), token }),
    {
        SessionHold { session_id, token }
    }
}

/// One accepted session, handed to the receiver that now owns it.
#[derive(Debug, PartialEq, Eq)]
pub struct AcceptedSession {
    pub session_id: SessionId,
    pub lock: SessionLock,
    pub state: Vec<u8>,
}

pub struct AcceptedView {
    pub session_id: Seq<char>,
    pub lock: SessionLock,
    pub state: Seq<u8>,
}

impl DeepView for AcceptedSession {
    type V = AcceptedView;

    open spec fn deep_view(&self) -> AcceptedView {
        AcceptedView {
            session_id: self.session_id.deep_view(),
            lock: self.lock,
            state: self.state@,
        }
    }
}

impl AcceptedSession {
    /// The hold a receiver presents on subsequent commands.
    pub fn hold(&self) -> (hold: SessionHold)
        ensures
            hold.deep_view() == (HoldView {
                session_id: self.deep_view().session_id,
                token: self.lock.token,
            }),
    {
        SessionHold::new(self.session_id.clone(), self.lock.token)
    }
}

/// A lock is held up to, but not at, its deadline.
pub proof fn locks_end_at_their_deadline(record: SessionView, now: Timestamp)
    ensures
        live_lock(record, now) is Some <==> (record.lock is Some && now.0
            < record.lock->Some_0.locked_until.0),
{
}

impl Wire for SessionLock {
    open spec fn fits(v: SessionLock) -> bool {
        true
    }

    open spec fn wire(v: SessionLock) -> Seq<u8> {
        <(LockToken, Timestamp) as Wire>::wire((v.token, v.locked_until))
    }

    open spec fn unwire(b: Seq<u8>) -> Option<(SessionLock, Seq<u8>)> {
        match <(LockToken, Timestamp) as Wire>::unwire(b) {
            Some(((token, locked_until), rest)) => Some(
                (SessionLock { token, locked_until }, rest),
            ),
            None => None,
        }
    }

    proof fn round_trip(v: SessionLock, rest: Seq<u8>) {
        <(LockToken, Timestamp) as Wire>::round_trip((v.token, v.locked_until), rest);
    }

    fn write(&self, out: &mut Vec<u8>) {
        (self.token, self.locked_until).write(out);
    }

    fn read(b: &[u8]) -> (taken: Option<(SessionLock, &[u8])>) {
        match <(LockToken, Timestamp) as Wire>::read(b) {
            Some(((token, locked_until), rest)) => Some(
                (SessionLock { token, locked_until }, rest),
            ),
            None => None,
        }
    }
}

impl Wire for SessionRecord {
    open spec fn fits(v: SessionView) -> bool {
        v.state.len() <= usize::MAX
    }

    open spec fn wire(v: SessionView) -> Seq<u8> {
        <(Option<SessionLock>, Vec<u8>) as Wire>::wire((v.lock, v.state))
    }

    open spec fn unwire(b: Seq<u8>) -> Option<(SessionView, Seq<u8>)> {
        match <(Option<SessionLock>, Vec<u8>) as Wire>::unwire(b) {
            Some(((lock, state), rest)) => Some((SessionView { lock, state }, rest)),
            None => None,
        }
    }

    proof fn round_trip(v: SessionView, rest: Seq<u8>) {
        <(Option<SessionLock>, Vec<u8>) as Wire>::round_trip((v.lock, v.state), rest);
    }

    fn write(&self, out: &mut Vec<u8>) {
        let ghost start = out@;
        self.lock.write(out);
        self.state.write(out);
        proof {
            assert(self.state.deep_view() =~= self.state@);
            assert(self.lock.deep_view() == self.lock);
            assert(out@ =~= start + Self::wire(self.deep_view()));
        }
    }

    fn read(b: &[u8]) -> (taken: Option<(SessionRecord, &[u8])>) {
        match <(Option<SessionLock>, Vec<u8>) as Wire>::read(b) {
            Some(((lock, state), rest)) => {
                proof {
                    assert(state.deep_view() =~= state@);
                    assert(lock.deep_view() == lock);
                }
                Some((SessionRecord { lock, state }, rest))
            },
            None => None,
        }
    }
}

} // verus!
