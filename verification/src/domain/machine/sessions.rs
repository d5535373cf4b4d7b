//! Session ownership and session state.

use vstd::prelude::*;

use crate::bytes;
use crate::domain::codec;
use crate::domain::command::{Command, CommandOutcome, CommandView, OutcomeView};
use crate::domain::error::{BrokerError, ErrorView};
use crate::domain::identifier;
use crate::domain::identifier::SessionId;
use crate::domain::keys;
use crate::domain::machine;
use crate::domain::machine::delivery;
use crate::domain::machine::shared;
use crate::domain::machine::{StateMachine, Step, MAX_SESSION_SCAN, TIMER_SCAN_LIMIT};
use crate::domain::message::LockToken;
use crate::domain::queue;
use crate::domain::queue::QueueCounters;
use crate::domain::session;
use crate::domain::session::{
    AcceptedSession, AcceptedView, HoldView, SessionHold, SessionLock, SessionRecord, SessionView,
};
use crate::domain::time;
use crate::domain::time::Timestamp;
use crate::storage;
use crate::storage::{Contents, OpView, StateStore, WriteBatch};

verus! {

// ---- what is decided -------------------------------------------------------

/// The session is locked under a fresh token. An elapsed lock still owns an
/// index entry, which the sweep may not have reached yet.
pub open spec fn session_locked(
    m: Contents,
    c: CommandView,
    id: Seq<char>,
    record: SessionView,
    locked_until: Timestamp,
    batch: Seq<OpView>,
) -> Result<(Seq<OpView>, AcceptedView), ErrorView> {
    match machine::counters_of(m, c) {
        Err(error) => Err(error),
        Ok(counters) => {
            let lock = SessionLock { token: LockToken(counters.next_lock_token), locked_until };
            let next = QueueCounters {
                next_lock_token: queue::bump(counters.next_lock_token),
                ..counters
            };
            let cleared = match record.lock {
                Some(previous) => batch.push(
                    shared::drop_key(
                        keys::session_lock_key(c.namespace, c.entity, previous.locked_until, id),
                    ),
                ),
                None => batch,
            };
            Ok(
                (
                    cleared.push(
                        shared::put(
                            keys::session_key(c.namespace, c.entity, id),
                            codec::encoded::<SessionRecord>(
                                SessionView { lock: Some(lock), ..record },
                            ),
                        ),
                    ).push(
                        shared::mark(
                            keys::session_lock_key(c.namespace, c.entity, locked_until, id),
                        ),
                    ).push(
                        shared::put(
                            keys::queue_counters_key(c.namespace, c.entity),
                            codec::encoded::<QueueCounters>(next),
                        ),
                    ),
                    AcceptedView { session_id: id, lock, state: record.state },
                ),
            )
        },
    }
}

/// An accepted session as the outcome of a command.
pub open spec fn accepted(locked: Result<(Seq<OpView>, AcceptedView), ErrorView>) -> Step {
    match locked {
        Err(error) => Err(error),
        Ok((changes, session)) => Ok((changes, OutcomeView::SessionAccepted(Some(session)))),
    }
}

/// The first session from `start` on that nobody holds is accepted, among the
/// next `n` that have a ready message.
pub open spec fn accept_from(
    m: Contents,
    c: CommandView,
    locked_until: Timestamp,
    start: Seq<u8>,
    n: nat,
    batch: Seq<OpView>,
) -> Step
    decreases n,
{
    let prefix = keys::entity_session_ready_prefix_key(c.namespace, c.entity);
    let found = storage::scan(m, prefix, start, 1);
    if n == 0 || found.len() == 0 {
        Ok((batch, OutcomeView::SessionAccepted(None)))
    } else {
        match keys::session_after(prefix, found[0].0) {
            None => Err(ErrorView::MalformedIndexKey),
            Some(text) => match identifier::session_id_of(text) {
                Err(error) => Err(ErrorView::Identifier(error)),
                Ok(id) => match machine::session_of(m, c, id) {
                    Err(error) => Err(error),
                    Ok(record) => if session::live_lock(record, c.issued_at) is None {
                        accepted(session_locked(m, c, id, record, locked_until, batch))
                    } else {
                        accept_from(
                            m,
                            c,
                            locked_until,
                            keys::after_session_ready_key(c.namespace, c.entity, id),
                            (n - 1) as nat,
                            batch,
                        )
                    },
                },
            },
        }
    }
}

/// What accepting a session does. A named session can be accepted even when it
/// holds nothing, which is how a receiver waits on a session it knows is coming.
pub open spec fn accept_session_step(
    m: Contents,
    c: CommandView,
    named: Option<Seq<char>>,
    asked: Option<u64>,
    batch: Seq<OpView>,
) -> Step {
    match machine::config_of(m, c) {
        Err(error) => Err(error),
        Ok(config) => if !config.requires_session {
            Err(ErrorView::SessionNotSupported)
        } else {
            let locked_until = time::later(c.issued_at, delivery::lock_millis(config, asked));
            match named {
                None => accept_from(
                    m,
                    c,
                    locked_until,
                    keys::entity_session_ready_prefix_key(c.namespace, c.entity),
                    MAX_SESSION_SCAN as nat,
                    batch,
                ),
                Some(id) => match machine::session_of(m, c, id) {
                    Err(error) => Err(error),
                    Ok(record) => if session::live_lock(record, c.issued_at) is Some {
                        Err(ErrorView::SessionAlreadyLocked { session_id: id })
                    } else {
                        accepted(session_locked(m, c, id, record, locked_until, batch))
                    },
                },
            }
        },
    }
}

/// What releasing a session does.
pub open spec fn release_session_step(
    m: Contents,
    c: CommandView,
    hold: HoldView,
    batch: Seq<OpView>,
) -> Step {
    match shared::held_session(m, c, hold) {
        Err(error) => Err(error),
        Ok(record) => Ok(
            (
                shared::unlocked_session(c, hold.session_id, record, batch),
                OutcomeView::SessionReleased,
            ),
        ),
    }
}

/// What renewing a session lock does. The token is unchanged, so a receiver
/// mid-renewal keeps working.
pub open spec fn renew_session_lock_step(
    m: Contents,
    c: CommandView,
    hold: HoldView,
    asked: Option<u64>,
    batch: Seq<OpView>,
) -> Step {
    match machine::config_of(m, c) {
        Err(error) => Err(error),
        Ok(config) => match shared::held_session(m, c, hold) {
            Err(error) => Err(error),
            Ok(record) => {
                let previous = record.lock->Some_0;
                let locked_until = time::later(c.issued_at, delivery::lock_millis(config, asked));
                let lock = SessionLock { token: previous.token, locked_until };
                Ok(
                    (
                        batch.push(
                            shared::drop_key(
                                keys::session_lock_key(
                                    c.namespace,
                                    c.entity,
                                    previous.locked_until,
                                    hold.session_id,
                                ),
                            ),
                        ).push(
                            shared::mark(
                                keys::session_lock_key(
                                    c.namespace,
                                    c.entity,
                                    locked_until,
                                    hold.session_id,
                                ),
                            ),
                        ).push(
                            shared::put(
                                keys::session_key(c.namespace, c.entity, hold.session_id),
                                codec::encoded::<SessionRecord>(
                                    SessionView { lock: Some(lock), ..record },
                                ),
                            ),
                        ),
                        OutcomeView::SessionLockRenewed { locked_until },
                    ),
                )
            },
        },
    }
}

/// What storing session state does.
pub open spec fn set_session_state_step(
    m: Contents,
    c: CommandView,
    hold: HoldView,
    state: Seq<u8>,
    batch: Seq<OpView>,
) -> Step {
    match shared::held_session(m, c, hold) {
        Err(error) => Err(error),
        Ok(record) => Ok(
            (
                batch.push(
                    shared::put(
                        keys::session_key(c.namespace, c.entity, hold.session_id),
                        codec::encoded::<SessionRecord>(SessionView { state, ..record }),
                    ),
                ),
                OutcomeView::SessionStateSet,
            ),
        ),
    }
}

/// What reading session state does.
pub open spec fn get_session_state_step(
    m: Contents,
    c: CommandView,
    hold: HoldView,
    batch: Seq<OpView>,
) -> Step {
    match shared::held_session(m, c, hold) {
        Err(error) => Err(error),
        Ok(record) => Ok((batch, OutcomeView::SessionState(record.state))),
    }
}

/// The elapsed locks among `locks` are released in order; the first that is
/// still held ends the sweep.
pub open spec fn release_elapsed(
    m: Contents,
    c: CommandView,
    locks: Seq<(Seq<u8>, Seq<u8>)>,
    batch: Seq<OpView>,
    released: nat,
) -> Step
    decreases locks.len(),
{
    if locks.len() == 0 {
        Ok((batch, OutcomeView::SessionLocksExpired { released: released as u32 }))
    } else {
        let prefix = keys::session_lock_prefix_key(c.namespace, c.entity);
        match keys::deadline_and_text(prefix, locks[0].0) {
            None => Err(ErrorView::MalformedIndexKey),
            Some((locked_until, text)) => if locked_until.0 > c.issued_at.0 {
                Ok((batch, OutcomeView::SessionLocksExpired { released: released as u32 }))
            } else {
                match identifier::session_id_of(text) {
                    Err(error) => Err(ErrorView::Identifier(error)),
                    Ok(id) => match machine::session_of(m, c, id) {
                        Err(error) => Err(error),
                        Ok(record) => release_elapsed(
                            m,
                            c,
                            locks.skip(1),
                            shared::unlocked_session(c, id, record, batch),
                            released + 1,
                        ),
                    },
                }
            },
        }
    }
}

/// What the session lock sweep does.
pub open spec fn expire_session_locks_step(
    m: Contents,
    c: CommandView,
    batch: Seq<OpView>,
) -> Step {
    let prefix = keys::session_lock_prefix_key(c.namespace, c.entity);
    release_elapsed(m, c, storage::scan(m, prefix, prefix, TIMER_SCAN_LIMIT), batch, 0)
}

// ---- how it is done --------------------------------------------------------

impl<S: StateStore> StateMachine<S> {
    fn lock_session(
        &self,
        command: &Command,
        session_id: &SessionId,
        record: SessionRecord,
        locked_until: Timestamp,
        batch: &mut WriteBatch,
    ) -> (session: Result<AcceptedSession, BrokerError>)
        ensures
            machine::stepped(
                self.reliable(),
                session,
                final(batch).deep_view(),
                session_locked(
                    self.contents(),
                    command.deep_view(),
                    session_id.deep_view(),
                    record.deep_view(),
                    locked_until,
                    old(batch).deep_view(),
                ),
            ),
    {
        let namespace = &command.namespace;
        let entity = &command.entity;
        let mut counters = self.load_counters(command)?;
        let token = LockToken::new(counters.next_lock_token);
        counters.next_lock_token = counters.next_lock_token.saturating_add(1);

        // An elapsed lock still owns an index entry, which the sweep may not
        // have reached yet.
        if let Some(previous) = record.lock {
            batch.push_delete(
                keys::session_lock(namespace, entity, previous.locked_until, session_id),
            );
        }
        let lock = SessionLock { token, locked_until };
        let mut record = record;
        record.lock = Some(lock);
        batch.push_put(keys::session(namespace, entity, session_id), codec::store(&record));
        batch.push_put(
            keys::session_lock(namespace, entity, locked_until, session_id),
            shared::no_value(),
        );
        batch.push_put(keys::queue_counters(namespace, entity), codec::store(&counters));
        Ok(AcceptedSession { session_id: session_id.clone(), lock, state: record.state })
    }

    pub(crate) fn accept_session(
        &self,
        command: &Command,
        session_id: Option<&SessionId>,
        lock_duration_millis: Option<u64>,
        batch: &mut WriteBatch,
    ) -> (outcome: Result<CommandOutcome, BrokerError>)
        ensures
            machine::stepped(
                self.reliable(),
                outcome,
                final(batch).deep_view(),
                accept_session_step(
                    self.contents(),
                    command.deep_view(),
                    session_id.deep_view(),
                    lock_duration_millis,
                    old(batch).deep_view(),
                ),
            ),
    {
        let config = self.load_config(command)?;
        if !config.requires_session {
            return Err(BrokerError::SessionNotSupported);
        }
        let millis: u64 = lock_duration_millis.unwrap_or(config.lock_duration_millis);
        let locked_until = command.issued_at.saturating_add_millis(millis);
        match session_id {
            None => self.accept_next_session(command, locked_until, batch),
            Some(session_id) => {
                // A named session can be accepted even when it holds nothing,
                // which is how a receiver waits on a session it knows is coming.
                let record = self.load_session(command, session_id)?;
                if record.live_lock_at(command.issued_at).is_some() {
                    return Err(
                        BrokerError::SessionAlreadyLocked { session_id: session_id.clone() },
                    );
                }
                let session = self.lock_session(
                    command,
                    session_id,
                    record,
                    locked_until,
                    batch,
                )?;
                Ok(CommandOutcome::SessionAccepted(Some(session)))
            },
        }
    }

    /// Walks the entity's ready messages grouped by session, taking the first
    /// session nobody holds.
    #[verifier::loop_isolation(false)]
    fn accept_next_session(
        &self,
        command: &Command,
        locked_until: Timestamp,
        batch: &mut WriteBatch,
    ) -> (outcome: Result<CommandOutcome, BrokerError>)
        ensures
            machine::stepped(
                self.reliable(),
                outcome,
                final(batch).deep_view(),
                accept_from(
                    self.contents(),
                    command.deep_view(),
                    locked_until,
                    keys::entity_session_ready_prefix_key(
                        command.deep_view().namespace,
                        command.deep_view().entity,
                    ),
                    MAX_SESSION_SCAN as nat,
                    old(batch).deep_view(),
                ),
            ),
    {
        let namespace = &command.namespace;
        let entity = &command.entity;
        let prefix = keys::entity_session_ready_prefix(namespace, entity);
        let mut start = bytes::copy_bytes(prefix.as_slice());
        let mut left: usize = MAX_SESSION_SCAN;
        let ghost m = self.contents();
        let ghost c = command.deep_view();
        let ghost whole = accept_from(
            m,
            c,
            locked_until,
            prefix@,
            MAX_SESSION_SCAN as nat,
            batch.deep_view(),
        );
        let ghost before = batch.deep_view();
        while left > 0
            invariant
                batch.deep_view() == before,
                accept_from(m, c, locked_until, start@, left as nat, before) == whole,
            decreases left,
        {
            let found = self.scan_from(prefix.as_slice(), start.as_slice(), 1)?;
            let ghost entries = storage::scan(m, prefix@, start@, 1);
            if found.len() == 0 {
                return Ok(CommandOutcome::SessionAccepted(None));
            }
            proof {
                assert(entries[0] == (found@[0].0@, found@[0].1@));
            }
            let text = match keys::session_id_after(prefix.as_slice(), found[0].0.as_slice()) {
                Some(text) => text,
                None => return Err(BrokerError::MalformedIndexKey),
            };
            let session_id = match SessionId::new(text.to_owned()) {
                Ok(session_id) => session_id,
                Err(error) => return Err(BrokerError::Identifier(error)),
            };
            let record = self.load_session(command, &session_id)?;
            if record.live_lock_at(command.issued_at).is_none() {
                let session = self.lock_session(
                    command,
                    &session_id,
                    record,
                    locked_until,
                    batch,
                )?;
                return Ok(CommandOutcome::SessionAccepted(Some(session)));
            }
            // Held by someone else: resume past every message of this session
            // rather than reading them only to reject them again.
            start = keys::after_session_ready(namespace, entity, &session_id);
            left = left - 1;
        }
        Ok(CommandOutcome::SessionAccepted(None))
    }

    pub(crate) fn release_session(
        &self,
        command: &Command,
        session: &SessionHold,
        batch: &mut WriteBatch,
    ) -> (outcome: Result<CommandOutcome, BrokerError>)
        ensures
            machine::stepped(
                self.reliable(),
                outcome,
                final(batch).deep_view(),
                release_session_step(
                    self.contents(),
                    command.deep_view(),
                    session.deep_view(),
                    old(batch).deep_view(),
                ),
            ),
    {
        let record = self.held_session(command, session)?;
        shared::clear_session_lock(command, &session.session_id, record, batch);
        Ok(CommandOutcome::SessionReleased)
    }

    pub(crate) fn renew_session_lock(
        &self,
        command: &Command,
        session: &SessionHold,
        lock_duration_millis: Option<u64>,
        batch: &mut WriteBatch,
    ) -> (outcome: Result<CommandOutcome, BrokerError>)
        ensures
            machine::stepped(
                self.reliable(),
                outcome,
                final(batch).deep_view(),
                renew_session_lock_step(
                    self.contents(),
                    command.deep_view(),
                    session.deep_view(),
                    lock_duration_millis,
                    old(batch).deep_view(),
                ),
            ),
    {
        let config = self.load_config(command)?;
        let mut record = self.held_session(command, session)?;
        let namespace = &command.namespace;
        let entity = &command.entity;
        let previous = match record.lock {
            Some(previous) => previous,
            None => {
                return Err(
                    BrokerError::SessionLockNotHeld { session_id: session.session_id.clone() },
                );
            },
        };
        let millis: u64 = lock_duration_millis.unwrap_or(config.lock_duration_millis);
        let locked_until = command.issued_at.saturating_add_millis(millis);

        // The token is unchanged, so a receiver mid-renewal keeps working.
        record.lock = Some(SessionLock { token: previous.token, locked_until });
        batch.push_delete(
            keys::session_lock(namespace, entity, previous.locked_until, &session.session_id),
        );
        batch.push_put(
            keys::session_lock(namespace, entity, locked_until, &session.session_id),
            shared::no_value(),
        );
        batch.push_put(
            keys::session(namespace, entity, &session.session_id),
            codec::store(&record),
        );
        Ok(CommandOutcome::SessionLockRenewed { locked_until })
    }

    pub(crate) fn set_session_state(
        &self,
        command: &Command,
        session: &SessionHold,
        state: &[u8],
        batch: &mut WriteBatch,
    ) -> (outcome: Result<CommandOutcome, BrokerError>)
        ensures
            machine::stepped(
                self.reliable(),
                outcome,
                final(batch).deep_view(),
                set_session_state_step(
                    self.contents(),
                    command.deep_view(),
                    session.deep_view(),
                    state@,
                    old(batch).deep_view(),
                ),
            ),
    {
        let mut record = self.held_session(command, session)?;
        record.state = bytes::copy_bytes(state);
        batch.push_put(
            keys::session(&command.namespace, &command.entity, &session.session_id),
            codec::store(&record),
        );
        Ok(CommandOutcome::SessionStateSet)
    }

    pub(crate) fn get_session_state(
        &self,
        command: &Command,
        session: &SessionHold,
        batch: &WriteBatch,
    ) -> (outcome: Result<CommandOutcome, BrokerError>)
        ensures
            machine::stepped(
                self.reliable(),
                outcome,
                batch.deep_view(),
                get_session_state_step(
                    self.contents(),
                    command.deep_view(),
                    session.deep_view(),
                    batch.deep_view(),
                ),
            ),
    {
        let record = self.held_session(command, session)?;
        Ok(CommandOutcome::SessionState(record.state))
    }

    #[verifier::loop_isolation(false)]
    pub(crate) fn expire_session_locks(&self, command: &Command, batch: &mut WriteBatch) -> (outcome:
        Result<CommandOutcome, BrokerError>)
        ensures
            machine::stepped(
                self.reliable(),
                outcome,
                final(batch).deep_view(),
                expire_session_locks_step(
                    self.contents(),
                    command.deep_view(),
                    old(batch).deep_view(),
                ),
            ),
    {
        let prefix = keys::session_lock_prefix(&command.namespace, &command.entity);
        let locks = self.scan_prefix(prefix.as_slice(), TIMER_SCAN_LIMIT)?;
        let ghost m = self.contents();
        let ghost c = command.deep_view();
        let ghost entries = storage::entries_view(locks@);
        let ghost whole = release_elapsed(m, c, entries, batch.deep_view(), 0);
        let mut released: u32 = 0;
        let mut i: usize = 0;
        proof {
            assert(entries.skip(0) =~= entries);
        }
        while i < locks.len()
            invariant
                i <= locks@.len(),
                locks@.len() <= TIMER_SCAN_LIMIT,
                released == i,
                release_elapsed(
                    m,
                    c,
                    entries.skip(i as int),
                    batch.deep_view(),
                    released as nat,
                ) == whole,
            decreases locks@.len() - i,
        {
            proof {
                assert(entries.skip(i as int).skip(1) =~= entries.skip(i + 1));
                assert(entries.skip(i as int)[0] == entries[i as int]);
            }
            let (locked_until, text) = match keys::session_lock_parts(
                prefix.as_slice(),
                locks[i].0.as_slice(),
            ) {
                Some(parts) => parts,
                None => return Err(BrokerError::MalformedIndexKey),
            };
            // Ordered by deadline, so the first lock still held ends the sweep.
            if locked_until.0 > command.issued_at.0 {
                return Ok(CommandOutcome::SessionLocksExpired { released });
            }
            let session_id = match SessionId::new(text.to_owned()) {
                Ok(session_id) => session_id,
                Err(error) => return Err(BrokerError::Identifier(error)),
            };
            let record = self.load_session(command, &session_id)?;
            shared::clear_session_lock(command, &session_id, record, batch);
            released = released + 1;
            i = i + 1;
        }
        Ok(CommandOutcome::SessionLocksExpired { released })
    }
}

} // verus!
