//! Reads and transitions that several commands share.

use vstd::prelude::*;

use crate::domain::codec;
use crate::domain::command::{Command, CommandView};
use crate::domain::error;
use crate::domain::error::{BrokerError, ErrorView};
use crate::domain::identifier;
use crate::domain::identifier::SessionId;
use crate::domain::keys;
use crate::domain::machine;
use crate::domain::machine::{Staged, StateMachine};
use crate::domain::message;
use crate::domain::message::{
    DeadLetterInfo, DeadLetterInfoView, DeadLetterReason, DeadLetterReasonView, DeliveryOrigin,
    EnvelopeView, LockToken, MessageEnvelope, MessageRecord, MessageState, RecordView,
    SequenceNumber,
};
use crate::domain::queue::{QueueConfig, QueueCounters};
use crate::domain::session::{HoldView, SessionHold, SessionRecord, SessionView};
use crate::domain::time::Timestamp;
use crate::storage::{Contents, OpView, StateStore, WriteBatch};

verus! {

// ---- what is decided -------------------------------------------------------

/// A change that stores `value` under `key`.
pub open spec fn put(key: Seq<u8>, value: Seq<u8>) -> OpView {
    OpView::Put { key, value }
}

/// A change that marks `key` in an index.
pub open spec fn mark(key: Seq<u8>) -> OpView {
    OpView::Put { key, value: Seq::empty() }
}

/// A change that removes `key`.
pub open spec fn drop_key(key: Seq<u8>) -> OpView {
    OpView::Delete { key }
}

/// `batch` with the expiry entry of `record` removed, when it has one.
pub open spec fn without_expiry(
    c: CommandView,
    expires_at: Option<Timestamp>,
    sequence: SequenceNumber,
    batch: Seq<OpView>,
) -> Seq<OpView> {
    match expires_at {
        Some(at) => batch.push(drop_key(keys::expiry_key(c.namespace, c.entity, at, sequence))),
        None => batch,
    }
}

/// `batch` with an expiry entry for `record`, when it has a lifetime.
pub open spec fn with_expiry(
    c: CommandView,
    expires_at: Option<Timestamp>,
    sequence: SequenceNumber,
    batch: Seq<OpView>,
) -> Seq<OpView> {
    match expires_at {
        Some(at) => batch.push(mark(keys::expiry_key(c.namespace, c.entity, at, sequence))),
        None => batch,
    }
}

/// The index entry of a ready message: its own session's on a session queue, and
/// the entity-wide one otherwise.
pub open spec fn ready_entry(c: CommandView, record: RecordView) -> Seq<u8> {
    match record.session_id {
        Some(id) => keys::session_ready_key(c.namespace, c.entity, id, record.sequence),
        None => keys::ready_key(c.namespace, c.entity, record.sequence),
    }
}

/// The stored message with the lock that `token` holds, its deadline and where
/// it goes back to.
pub open spec fn held_lock(
    m: Contents,
    c: CommandView,
    sequence: SequenceNumber,
    lock_token: LockToken,
) -> Result<(RecordView, Timestamp, DeliveryOrigin), ErrorView> {
    match machine::message_of(m, c, sequence) {
        Err(error) => Err(error),
        Ok(record) => match record.state {
            MessageState::Locked { token, locked_until, origin } => if token != lock_token {
                Err(ErrorView::LockTokenMismatch { sequence })
            } else if locked_until.0 <= c.issued_at.0 {
                Err(ErrorView::LockExpired { sequence, locked_until })
            } else {
                Ok((record, locked_until, origin))
            },
            _ => Err(ErrorView::MessageNotLocked { sequence }),
        },
    }
}

/// The stored session with the live lock that `hold` presents.
pub open spec fn held_session(m: Contents, c: CommandView, hold: HoldView) -> Result<
    SessionView,
    ErrorView,
> {
    match machine::session_of(m, c, hold.session_id) {
        Err(error) => Err(error),
        Ok(record) => match record.lock {
            None => Err(ErrorView::SessionLockNotHeld { session_id: hold.session_id }),
            Some(lock) => if lock.token != hold.token {
                Err(ErrorView::SessionLockNotHeld { session_id: hold.session_id })
            } else if lock.locked_until.0 <= c.issued_at.0 {
                Err(
                    ErrorView::SessionLockExpired {
                        session_id: hold.session_id,
                        locked_until: lock.locked_until,
                    },
                )
            } else {
                Ok(record)
            },
        },
    }
}

/// The entry of `record` in the index of its state goes.
pub open spec fn without_index(c: CommandView, record: RecordView, batch: Seq<OpView>) -> Seq<
    OpView,
> {
    match record.state {
        MessageState::Ready => batch.push(drop_key(ready_entry(c, record))),
        MessageState::Deferred => batch.push(
            drop_key(keys::deferred_key(c.namespace, c.entity, record.sequence)),
        ),
        MessageState::Scheduled => match record.scheduled_enqueue_at {
            Some(at) => batch.push(
                drop_key(keys::scheduled_key(c.namespace, c.entity, at, record.sequence)),
            ),
            None => batch,
        },
        MessageState::Locked { locked_until, .. } => batch.push(
            drop_key(keys::lock_key(c.namespace, c.entity, locked_until, record.sequence)),
        ),
    }
}

/// `record` as it stands in the dead-letter queue: ready, without lifetime or
/// session, and with the reason it is there.
pub open spec fn dead_record(
    record: RecordView,
    reason: DeadLetterReasonView,
    description: Seq<char>,
    now: Timestamp,
) -> RecordView {
    RecordView {
        state: MessageState::Ready,
        expires_at: None,
        session_id: None,
        dead_letter: Some(
            DeadLetterInfoView { reason, description, dead_lettered_at: now },
        ),
        ..record
    }
}

/// The message leaves every index of its entity and becomes ready in the
/// dead-letter queue under its sequence number.
pub open spec fn dead_lettered(
    c: CommandView,
    record: RecordView,
    reason: DeadLetterReasonView,
    description: Seq<char>,
    batch: Seq<OpView>,
) -> Staged {
    let sequence = record.sequence;
    let removed = without_expiry(
        c,
        record.expires_at,
        sequence,
        without_index(c, record, batch).push(
            drop_key(keys::message_key(c.namespace, c.entity, sequence)),
        ),
    );
    match machine::shadow_of(c.entity) {
        Err(error) => Err(error),
        Ok(shadow) => Ok(
            removed.push(
                put(
                    keys::message_key(c.namespace, shadow, sequence),
                    codec::encoded::<MessageRecord>(
                        dead_record(record, reason, description, c.issued_at),
                    ),
                ),
            ).push(mark(keys::ready_key(c.namespace, shadow, sequence))),
        ),
    }
}

/// The message outlived its lifetime.
pub open spec fn lifetime_over(c: CommandView, record: RecordView, batch: Seq<OpView>) -> Staged {
    dead_lettered(
        c,
        record,
        DeadLetterReasonView::TimeToLiveExpired,
        "the message exceeded its time to live"@,
        batch,
    )
}

/// The message was delivered as often as its queue allows.
pub open spec fn deliveries_over(c: CommandView, record: RecordView, batch: Seq<OpView>) -> Staged {
    dead_lettered(
        c,
        record,
        DeadLetterReasonView::MaxDeliveryCountExceeded,
        "the message reached its maximum delivery count"@,
        batch,
    )
}

/// An unsettled delivery goes back to the index it came from.
pub open spec fn returned(
    c: CommandView,
    record: RecordView,
    locked_until: Timestamp,
    origin: DeliveryOrigin,
    batch: Seq<OpView>,
) -> Staged {
    let sequence = record.sequence;
    let unlocked = batch.push(
        drop_key(keys::lock_key(c.namespace, c.entity, locked_until, sequence)),
    );
    let key = keys::message_key(c.namespace, c.entity, sequence);
    match origin {
        DeliveryOrigin::Ready => {
            let ready = RecordView { state: MessageState::Ready, ..record };
            Ok(
                with_expiry(
                    c,
                    record.expires_at,
                    sequence,
                    unlocked.push(mark(ready_entry(c, ready))),
                ).push(put(key, codec::encoded::<MessageRecord>(ready))),
            )
        },
        DeliveryOrigin::Deferred => {
            let deferred = RecordView { state: MessageState::Deferred, ..record };
            Ok(
                unlocked.push(mark(keys::deferred_key(c.namespace, c.entity, sequence))).push(
                    put(key, codec::encoded::<MessageRecord>(deferred)),
                ),
            )
        },
        DeliveryOrigin::Scheduled => Err(ErrorView::MessageNotLocked { sequence }),
    }
}

/// Whether abandoning or lock expiry should dead-letter rather than return the
/// message.
///
/// Never true inside a dead-letter queue: its shadow config carries an
/// unreachable delivery limit, and this guard keeps even a saturated delivery
/// count from cascading a message into a shadow of a shadow.
pub open spec fn over_delivery_limit(
    c: CommandView,
    config: QueueConfig,
    record: RecordView,
) -> bool {
    !identifier::names_dead_letter_queue(c.entity) && record.delivery_count
        >= config.max_delivery_count
}

/// `record` with its envelope replaced, when a replacement that fits is given.
pub open spec fn with_envelope(
    config: QueueConfig,
    record: RecordView,
    replacement: Option<EnvelopeView>,
) -> Result<RecordView, ErrorView> {
    match replacement {
        None => Ok(record),
        Some(envelope) => if envelope.bytes.len() > config.max_message_bytes {
            Err(
                ErrorView::MessageTooLarge {
                    body_bytes: envelope.bytes.len() as usize,
                    maximum_bytes: config.max_message_bytes,
                },
            )
        } else {
            Ok(RecordView { envelope: Some(message::stored_envelope(envelope)), ..record })
        },
    }
}

/// What is wrong with naming a session, or naming none, on a queue.
///
/// A session identifier on a queue that does not use sessions is refused rather
/// than ignored: accepting it would promise an ordering the queue cannot keep.
pub open spec fn session_fault(config: QueueConfig, names_session: bool) -> Option<ErrorView> {
    if config.requires_session && !names_session {
        Some(ErrorView::SessionRequired)
    } else if !config.requires_session && names_session {
        Some(ErrorView::SessionNotSupported)
    } else {
        None
    }
}

/// A session's lock goes while its state stays.
pub open spec fn unlocked_session(
    c: CommandView,
    id: Seq<char>,
    record: SessionView,
    batch: Seq<OpView>,
) -> Seq<OpView> {
    let cleared = match record.lock {
        Some(lock) => batch.push(
            drop_key(keys::session_lock_key(c.namespace, c.entity, lock.locked_until, id)),
        ),
        None => batch,
    };
    cleared.push(
        put(
            keys::session_key(c.namespace, c.entity, id),
            codec::encoded::<SessionRecord>(SessionView { lock: None, ..record }),
        ),
    )
}

/// The larger of nothing and one more.
pub open spec fn count_up(n: u32) -> u32 {
    if n < u32::MAX {
        (n + 1) as u32
    } else {
        n
    }
}

// ---- how it is done --------------------------------------------------------

/// The value an index entry carries: none.
pub(crate) fn no_value() -> (value: Vec<u8>)
    ensures
        value@ == Seq::<u8>::empty(),
{
    Vec::new()
}

pub(crate) fn drop_expiry(
    command: &Command,
    expires_at: Option<Timestamp>,
    sequence: SequenceNumber,
    batch: &mut WriteBatch,
)
    ensures
        final(batch).deep_view() == without_expiry(
            command.deep_view(),
            expires_at,
            sequence,
            old(batch).deep_view(),
        ),
{
    if let Some(at) = expires_at {
        batch.push_delete(keys::expiry(&command.namespace, &command.entity, at, sequence));
    }
}

pub(crate) fn mark_expiry(
    command: &Command,
    expires_at: Option<Timestamp>,
    sequence: SequenceNumber,
    batch: &mut WriteBatch,
)
    ensures
        final(batch).deep_view() == with_expiry(
            command.deep_view(),
            expires_at,
            sequence,
            old(batch).deep_view(),
        ),
{
    if let Some(at) = expires_at {
        batch.push_put(
            keys::expiry(&command.namespace, &command.entity, at, sequence),
            no_value(),
        );
    }
}

/// The index a ready message sits in: its own session's on a session queue,
/// and the entity-wide ready index otherwise.
pub(crate) fn ready_key(command: &Command, record: &MessageRecord) -> (key: Vec<u8>)
    ensures
        key@ == ready_entry(command.deep_view(), record.deep_view()),
{
    match &record.session_id {
        Some(id) => keys::session_ready(&command.namespace, &command.entity, id, record.sequence),
        None => keys::ready(&command.namespace, &command.entity, record.sequence),
    }
}

pub(crate) fn exceeded_delivery_limit(
    command: &Command,
    config: &QueueConfig,
    record: &MessageRecord,
) -> (yes: bool)
    ensures
        yes == over_delivery_limit(command.deep_view(), *config, record.deep_view()),
{
    !command.entity.is_dead_letter_queue() && record.delivery_count >= config.max_delivery_count
}

/// Rejects a command whose session argument disagrees with the queue.
pub(crate) fn require_session_agreement(config: &QueueConfig, names_session: bool) -> (agreement:
    Result<(), BrokerError>)
    ensures
        match agreement {
            Ok(_) => session_fault(*config, names_session) is None,
            Err(error) => session_fault(*config, names_session) == Some(error.deep_view())
                && !(error is Storage),
        },
{
    if config.requires_session && !names_session {
        return Err(BrokerError::SessionRequired);
    }
    if !config.requires_session && names_session {
        return Err(BrokerError::SessionNotSupported);
    }
    Ok(())
}

pub(crate) fn replace_envelope(
    config: &QueueConfig,
    record: MessageRecord,
    replacement: Option<&MessageEnvelope>,
) -> (replaced: Result<MessageRecord, BrokerError>)
    ensures
        error::agrees(
            true,
            replaced,
            with_envelope(*config, record.deep_view(), replacement.deep_view()),
        ),
{
    match replacement {
        None => Ok(record),
        Some(envelope) => {
            if envelope.len() > config.max_message_bytes {
                return Err(
                    BrokerError::MessageTooLarge {
                        body_bytes: envelope.len(),
                        maximum_bytes: config.max_message_bytes,
                    },
                );
            }
            let mut record = record;
            record.envelope = Some(envelope.to_stored());
            Ok(record)
        },
    }
}

/// Drops a session's lock while keeping its state, which outlives any one
/// receiver. Messages locked inside the session keep their own locks.
pub(crate) fn clear_session_lock(
    command: &Command,
    session_id: &SessionId,
    record: SessionRecord,
    batch: &mut WriteBatch,
)
    ensures
        final(batch).deep_view() == unlocked_session(
            command.deep_view(),
            session_id.deep_view(),
            record.deep_view(),
            old(batch).deep_view(),
        ),
{
    if let Some(lock) = record.lock {
        batch.push_delete(
            keys::session_lock(
                &command.namespace,
                &command.entity,
                lock.locked_until,
                session_id,
            ),
        );
    }
    let cleared = SessionRecord { lock: None, state: record.state };
    batch.push_put(
        keys::session(&command.namespace, &command.entity, session_id),
        codec::store(&cleared),
    );
}

/// Moves a message out of the active keyspace and into the dead-letter
/// keyspace, clearing whichever index currently references it.
pub(crate) fn move_to_dead_letter(
    command: &Command,
    record: MessageRecord,
    reason: DeadLetterReason,
    description: String,
    batch: &mut WriteBatch,
) -> (done: Result<(), BrokerError>)
    ensures
        machine::staged(
            true,
            done,
            final(batch).deep_view(),
            dead_lettered(
                command.deep_view(),
                record.deep_view(),
                reason.deep_view(),
                description@,
                old(batch).deep_view(),
            ),
        ),
{
    let namespace = &command.namespace;
    let entity = &command.entity;
    let sequence = record.sequence;
    match record.state {
        MessageState::Ready => {
            batch.push_delete(ready_key(command, &record));
        },
        MessageState::Deferred => {
            batch.push_delete(keys::deferred(namespace, entity, sequence));
        },
        MessageState::Scheduled => {
            if let Some(at) = record.scheduled_enqueue_at {
                batch.push_delete(keys::scheduled(namespace, entity, at, sequence));
            }
        },
        MessageState::Locked { locked_until, .. } => {
            batch.push_delete(keys::lock(namespace, entity, locked_until, sequence));
        },
    }
    batch.push_delete(keys::message(namespace, entity, sequence));
    drop_expiry(command, record.expires_at, sequence, batch);

    // Into the shadow queue as an ordinary ready message under its original
    // sequence: the same receive and settlement machinery drains it.
    // Lifetime and session are stripped: time to live does not apply in a
    // dead-letter queue, and its receivers hold no session.
    let shadow = match entity.dead_letter_queue() {
        Ok(shadow) => shadow,
        Err(error) => return Err(BrokerError::Identifier(error)),
    };
    let mut record = record;
    record.state = MessageState::Ready;
    record.expires_at = None;
    record.session_id = None;
    record.dead_letter = Some(
        DeadLetterInfo { reason, description, dead_lettered_at: command.issued_at },
    );
    batch.push_put(keys::message(namespace, &shadow, sequence), codec::store(&record));
    batch.push_put(keys::ready(namespace, &shadow, sequence), no_value());
    Ok(())
}

pub(crate) fn expire_record(
    command: &Command,
    record: MessageRecord,
    batch: &mut WriteBatch,
) -> (done: Result<(), BrokerError>)
    ensures
        machine::staged(
            true,
            done,
            final(batch).deep_view(),
            lifetime_over(command.deep_view(), record.deep_view(), old(batch).deep_view()),
        ),
{
    move_to_dead_letter(
        command,
        record,
        DeadLetterReason::TimeToLiveExpired,
        "the message exceeded its time to live".to_owned(),
        batch,
    )
}

pub(crate) fn exhaust_record(
    command: &Command,
    record: MessageRecord,
    batch: &mut WriteBatch,
) -> (done: Result<(), BrokerError>)
    ensures
        machine::staged(
            true,
            done,
            final(batch).deep_view(),
            deliveries_over(command.deep_view(), record.deep_view(), old(batch).deep_view()),
        ),
{
    move_to_dead_letter(
        command,
        record,
        DeadLetterReason::MaxDeliveryCountExceeded,
        "the message reached its maximum delivery count".to_owned(),
        batch,
    )
}

/// Restores an unsuccessfully processed delivery to the index it came
/// from. Callers handle TTL and maximum-delivery dead-lettering first.
pub(crate) fn return_unsettled(
    command: &Command,
    record: MessageRecord,
    locked_until: Timestamp,
    origin: DeliveryOrigin,
    batch: &mut WriteBatch,
) -> (done: Result<(), BrokerError>)
    ensures
        machine::staged(
            true,
            done,
            final(batch).deep_view(),
            returned(
                command.deep_view(),
                record.deep_view(),
                locked_until,
                origin,
                old(batch).deep_view(),
            ),
        ),
{
    let namespace = &command.namespace;
    let entity = &command.entity;
    let sequence = record.sequence;
    let mut record = record;
    batch.push_delete(keys::lock(namespace, entity, locked_until, sequence));
    match origin {
        DeliveryOrigin::Ready => {
            record.state = MessageState::Ready;
            batch.push_put(ready_key(command, &record), no_value());
            mark_expiry(command, record.expires_at, sequence, batch);
        },
        DeliveryOrigin::Deferred => {
            record.state = MessageState::Deferred;
            batch.push_put(keys::deferred(namespace, entity, sequence), no_value());
        },
        DeliveryOrigin::Scheduled => {
            return Err(BrokerError::MessageNotLocked { sequence });
        },
    }
    batch.push_put(keys::message(namespace, entity, sequence), codec::store(&record));
    Ok(())
}

impl<S: StateStore> StateMachine<S> {
    pub(crate) fn load_config(&self, command: &Command) -> (config: Result<
        QueueConfig,
        BrokerError,
    >)
        ensures
            error::agrees(
                self.reliable(),
                config,
                machine::config_of(self.contents(), command.deep_view()),
            ),
    {
        match self.queue_config(&command.namespace, &command.entity)? {
            Some(config) => Ok(config),
            None => Err(BrokerError::QueueNotFound),
        }
    }

    pub(crate) fn load_counters(&self, command: &Command) -> (counters: Result<
        QueueCounters,
        BrokerError,
    >)
        ensures
            error::agrees(
                self.reliable(),
                counters,
                machine::counters_of(self.contents(), command.deep_view()),
            ),
    {
        let key = keys::queue_counters(&command.namespace, &command.entity);
        match self.read::<QueueCounters>(key.as_slice())? {
            Some(counters) => Ok(counters),
            None => Ok(QueueCounters::default()),
        }
    }

    pub(crate) fn load_message(&self, command: &Command, sequence: SequenceNumber) -> (record:
        Result<MessageRecord, BrokerError>)
        ensures
            error::agrees(
                self.reliable(),
                record,
                machine::message_of(self.contents(), command.deep_view(), sequence),
            ),
    {
        match self.message(&command.namespace, &command.entity, sequence)? {
            Some(record) => Ok(record),
            None => Err(BrokerError::MessageNotFound { sequence }),
        }
    }

    pub(crate) fn load_session(&self, command: &Command, session_id: &SessionId) -> (record: Result<
        SessionRecord,
        BrokerError,
    >)
        ensures
            error::agrees(
                self.reliable(),
                record,
                machine::session_of(
                    self.contents(),
                    command.deep_view(),
                    session_id.deep_view(),
                ),
            ),
    {
        match self.session(&command.namespace, &command.entity, session_id)? {
            Some(record) => Ok(record),
            None => Ok(SessionRecord::default()),
        }
    }

    /// Resolves a settlement command to the message it names, rejecting a
    /// token that does not match the live lock.
    pub(crate) fn held_lock(
        &self,
        command: &Command,
        sequence: SequenceNumber,
        lock_token: LockToken,
    ) -> (held: Result<(MessageRecord, Timestamp, DeliveryOrigin), BrokerError>)
        ensures
            error::agrees(
                self.reliable(),
                held,
                held_lock(self.contents(), command.deep_view(), sequence, lock_token),
            ),
    {
        let record = self.load_message(command, sequence)?;
        match record.state {
            MessageState::Locked { token, locked_until, origin } => {
                if token != lock_token {
                    return Err(BrokerError::LockTokenMismatch { sequence });
                }
                if locked_until.0 <= command.issued_at.0 {
                    return Err(BrokerError::LockExpired { sequence, locked_until });
                }
                Ok((record, locked_until, origin))
            },
            _ => Err(BrokerError::MessageNotLocked { sequence }),
        }
    }

    /// Resolves a command's session hold, rejecting a token that does not match
    /// a lock that is still live.
    pub(crate) fn held_session(&self, command: &Command, session: &SessionHold) -> (record: Result<
        SessionRecord,
        BrokerError,
    >)
        ensures
            error::agrees(
                self.reliable(),
                record,
                held_session(self.contents(), command.deep_view(), session.deep_view()),
            ),
    {
        let record = self.load_session(command, &session.session_id)?;
        match record.lock {
            None => Err(
                BrokerError::SessionLockNotHeld { session_id: session.session_id.clone() },
            ),
            Some(lock) => {
                if lock.token != session.token {
                    return Err(
                        BrokerError::SessionLockNotHeld { session_id: session.session_id.clone() },
                    );
                }
                if lock.locked_until.0 <= command.issued_at.0 {
                    return Err(
                        BrokerError::SessionLockExpired {
                            session_id: session.session_id.clone(),
                            locked_until: lock.locked_until,
                        },
                    );
                }
                Ok(record)
            },
        }
    }
}

} // verus!
