//! Receiving ready messages and settling what was received.

use vstd::prelude::*;

use crate::domain::codec;
use crate::domain::command::{Command, CommandOutcome, CommandView, OutcomeView};
use crate::domain::error;
use crate::domain::error::{BrokerError, ErrorView};
use crate::domain::keys;
use crate::domain::machine;
use crate::domain::machine::shared;
use crate::domain::machine::{StateMachine, Step, MAX_RECEIVE_SCAN};
use crate::domain::message;
use crate::domain::message::{
    DeadLetterReason, DeadLetterReasonView, Delivery, DeliveryLock, DeliveryOrigin, DeliveryView,
    EnvelopeView, LockToken, MessageEnvelope, MessageRecord, MessageState, ReceiveMode, RecordView,
    SequenceNumber,
};
use crate::domain::queue;
use crate::domain::queue::{QueueConfig, QueueCounters};
use crate::domain::session::{HoldView, SessionHold};
use crate::domain::time;
use crate::storage;
use crate::storage::{Contents, OpView, StateStore, WriteBatch};

verus! {

// ---- what is decided -------------------------------------------------------

/// How long a lock lasts: as asked, or as the queue says.
pub open spec fn lock_millis(config: QueueConfig, asked: Option<u64>) -> u64 {
    match asked {
        Some(millis) => millis,
        None => config.lock_duration_millis,
    }
}

/// A ready message is handed out: locked, or gone from the store.
pub open spec fn handed_out(
    m: Contents,
    c: CommandView,
    config: QueueConfig,
    mode: ReceiveMode,
    asked: Option<u64>,
    sequence: SequenceNumber,
    record: RecordView,
    batch: Seq<OpView>,
) -> Step {
    let counted = RecordView {
        delivery_count: shared::count_up(record.delivery_count),
        ..record
    };
    let key = keys::message_key(c.namespace, c.entity, sequence);
    let unready = batch.push(shared::drop_key(shared::ready_entry(c, counted)));
    match mode {
        ReceiveMode::PeekLock => match machine::counters_of(m, c) {
            Err(error) => Err(error),
            Ok(counters) => {
                let token = LockToken(counters.next_lock_token);
                let millis = lock_millis(config, asked);
                let locked_until = time::later(c.issued_at, millis);
                let locked = RecordView {
                    state: MessageState::Locked {
                        token,
                        locked_until,
                        origin: DeliveryOrigin::Ready,
                    },
                    ..counted
                };
                let next = QueueCounters {
                    next_lock_token: queue::bump(counters.next_lock_token),
                    ..counters
                };
                let changes = shared::without_expiry(
                    c,
                    record.expires_at,
                    sequence,
                    unready,
                ).push(shared::put(key, codec::encoded::<MessageRecord>(locked))).push(
                    shared::mark(keys::lock_key(c.namespace, c.entity, locked_until, sequence)),
                ).push(
                    shared::put(
                        keys::queue_counters_key(c.namespace, c.entity),
                        codec::encoded::<QueueCounters>(next),
                    ),
                );
                let lock = DeliveryLock { token, locked_until, lock_duration_millis: millis };
                Ok(
                    (
                        changes,
                        OutcomeView::Received(
                            Some(
                                DeliveryView {
                                    sequence,
                                    ..message::delivery_of(
                                        locked,
                                        DeliveryOrigin::Ready,
                                        Some(lock),
                                    )
                                },
                            ),
                        ),
                    ),
                )
            },
        },
        ReceiveMode::ReceiveAndDelete => Ok(
            (
                shared::without_expiry(
                    c,
                    record.expires_at,
                    sequence,
                    unready.push(shared::drop_key(key)),
                ),
                OutcomeView::Received(
                    Some(
                        DeliveryView {
                            sequence,
                            ..message::delivery_of(counted, DeliveryOrigin::Ready, None)
                        },
                    ),
                ),
            ),
        ),
    }
}

/// The first ready message that has not expired is handed out; the expired ones
/// before it are dead-lettered.
pub open spec fn receive_from(
    m: Contents,
    c: CommandView,
    config: QueueConfig,
    mode: ReceiveMode,
    asked: Option<u64>,
    ready: Seq<(Seq<u8>, Seq<u8>)>,
    batch: Seq<OpView>,
) -> Step
    decreases ready.len(),
{
    if ready.len() == 0 {
        Ok((batch, OutcomeView::Received(None)))
    } else {
        match keys::last_sequence(ready[0].0) {
            None => Err(ErrorView::MalformedIndexKey),
            Some(sequence) => match machine::message_at(m, c.namespace, c.entity, sequence) {
                Err(error) => Err(error),
                Ok(None) => Err(ErrorView::DanglingIndexEntry { sequence }),
                Ok(Some(record)) => if message::expired(record, c.issued_at) {
                    match shared::lifetime_over(c, record, batch) {
                        Err(error) => Err(error),
                        Ok(longer) => receive_from(
                            m,
                            c,
                            config,
                            mode,
                            asked,
                            ready.skip(1),
                            longer,
                        ),
                    }
                } else {
                    handed_out(m, c, config, mode, asked, sequence, record, batch)
                },
            },
        }
    }
}

/// The settings of a queue that messages are received from. A topic has none.
pub open spec fn receivable(m: Contents, c: CommandView) -> Result<QueueConfig, ErrorView> {
    match machine::queue_at(m, c.namespace, c.entity) {
        Err(error) => Err(error),
        Ok(Some(config)) => Ok(config),
        Ok(None) => if m.dom().contains(keys::topic_config_key(c.namespace, c.entity)) {
            Err(ErrorView::TopicReceiveNotSupported)
        } else {
            Err(ErrorView::QueueNotFound)
        },
    }
}

/// What a receive does. A session receiver only ever sees its own session's
/// messages, and only for as long as it holds the session.
pub open spec fn receive_step(
    m: Contents,
    c: CommandView,
    mode: ReceiveMode,
    asked: Option<u64>,
    hold: Option<HoldView>,
    batch: Seq<OpView>,
) -> Step {
    match receivable(m, c) {
        Err(error) => Err(error),
        Ok(config) => match shared::session_fault(config, hold is Some) {
            Some(error) => Err(error),
            None => match hold {
                Some(hold) => match shared::held_session(m, c, hold) {
                    Err(error) => Err(error),
                    Ok(_) => {
                        let prefix = keys::session_ready_prefix_key(
                            c.namespace,
                            c.entity,
                            hold.session_id,
                        );
                        receive_from(
                            m,
                            c,
                            config,
                            mode,
                            asked,
                            storage::scan(m, prefix, prefix, MAX_RECEIVE_SCAN),
                            batch,
                        )
                    },
                },
                None => {
                    let prefix = keys::ready_prefix_key(c.namespace, c.entity);
                    receive_from(
                        m,
                        c,
                        config,
                        mode,
                        asked,
                        storage::scan(m, prefix, prefix, MAX_RECEIVE_SCAN),
                        batch,
                    )
                },
            },
        },
    }
}

/// Why a receive is refused before anything is staged: for the queue, the
/// session, or the first ready entry.
pub open spec fn receive_refusal(m: Contents, c: CommandView, hold: Option<HoldView>) -> Option<
    ErrorView,
> {
    match receivable(m, c) {
        Err(error) => Some(error),
        Ok(config) => match shared::session_fault(config, hold is Some) {
            Some(error) => Some(error),
            None => match hold {
                Some(hold) => match shared::held_session(m, c, hold) {
                    Err(error) => Some(error),
                    Ok(_) => {
                        let prefix = keys::session_ready_prefix_key(
                            c.namespace,
                            c.entity,
                            hold.session_id,
                        );
                        first_entry_fault(
                            m,
                            c,
                            storage::scan(m, prefix, prefix, MAX_RECEIVE_SCAN),
                        )
                    },
                },
                None => {
                    let prefix = keys::ready_prefix_key(c.namespace, c.entity);
                    first_entry_fault(m, c, storage::scan(m, prefix, prefix, MAX_RECEIVE_SCAN))
                },
            },
        },
    }
}

/// What is wrong with the first entry of a ready index.
pub open spec fn first_entry_fault(
    m: Contents,
    c: CommandView,
    ready: Seq<(Seq<u8>, Seq<u8>)>,
) -> Option<ErrorView> {
    if ready.len() == 0 {
        None
    } else {
        match keys::last_sequence(ready[0].0) {
            None => Some(ErrorView::MalformedIndexKey),
            Some(sequence) => match machine::message_at(m, c.namespace, c.entity, sequence) {
                Err(error) => Some(error),
                Ok(None) => Some(ErrorView::DanglingIndexEntry { sequence }),
                Ok(Some(_)) => None,
            },
        }
    }
}

/// A receive that is refused before anything is staged is answered with that
/// refusal, whatever the mode and the lock that were asked for.
pub proof fn receive_refusals_are_answered(
    m: Contents,
    c: CommandView,
    mode: ReceiveMode,
    asked: Option<u64>,
    hold: Option<HoldView>,
    batch: Seq<OpView>,
)
    requires
        receive_refusal(m, c, hold) is Some,
    ensures
        receive_step(m, c, mode, asked, hold, batch) == Err::<
            (Seq<OpView>, OutcomeView),
            ErrorView,
        >(receive_refusal(m, c, hold)->Some_0),
{
}

/// A completed message is gone, with its lock and its expiry entry.
pub open spec fn complete_step(
    m: Contents,
    c: CommandView,
    sequence: SequenceNumber,
    lock_token: LockToken,
    batch: Seq<OpView>,
) -> Step {
    match shared::held_lock(m, c, sequence, lock_token) {
        Err(error) => Err(error),
        Ok((record, locked_until, _)) => Ok(
            (
                shared::without_expiry(
                    c,
                    record.expires_at,
                    sequence,
                    batch.push(
                        shared::drop_key(keys::message_key(c.namespace, c.entity, sequence)),
                    ).push(
                        shared::drop_key(
                            keys::lock_key(c.namespace, c.entity, locked_until, sequence),
                        ),
                    ),
                ),
                OutcomeView::Completed,
            ),
        ),
    }
}

/// What giving up a delivery does. Expiration is suspended while a receiver owns
/// the lock; once that receiver gives it up, TTL takes precedence over
/// redelivery.
pub open spec fn abandon_step(
    m: Contents,
    c: CommandView,
    sequence: SequenceNumber,
    lock_token: LockToken,
    replacement: Option<EnvelopeView>,
    batch: Seq<OpView>,
) -> Step {
    match machine::config_of(m, c) {
        Err(error) => Err(error),
        Ok(config) => match shared::held_lock(m, c, sequence, lock_token) {
            Err(error) => Err(error),
            Ok((record, locked_until, origin)) => match shared::with_envelope(
                config,
                record,
                replacement,
            ) {
                Err(error) => Err(error),
                Ok(record) => if message::expired(record, c.issued_at) {
                    machine::with_outcome(
                        shared::lifetime_over(c, record, batch),
                        OutcomeView::Abandoned { dead_lettered: true },
                    )
                } else if shared::over_delivery_limit(c, config, record) {
                    machine::with_outcome(
                        shared::deliveries_over(c, record, batch),
                        OutcomeView::Abandoned { dead_lettered: true },
                    )
                } else {
                    machine::with_outcome(
                        shared::returned(c, record, locked_until, origin, batch),
                        OutcomeView::Abandoned { dead_lettered: false },
                    )
                },
            },
        },
    }
}

/// What dead-lettering on request does.
pub open spec fn dead_letter_step(
    m: Contents,
    c: CommandView,
    sequence: SequenceNumber,
    lock_token: LockToken,
    reason: Seq<char>,
    description: Seq<char>,
    replacement: Option<EnvelopeView>,
    batch: Seq<OpView>,
) -> Step {
    match machine::config_of(m, c) {
        Err(error) => Err(error),
        Ok(config) => match shared::held_lock(m, c, sequence, lock_token) {
            Err(error) => Err(error),
            Ok((record, _, _)) => match shared::with_envelope(config, record, replacement) {
                Err(error) => Err(error),
                Ok(record) => machine::with_outcome(
                    shared::dead_lettered(
                        c,
                        record,
                        DeadLetterReasonView::Application(reason),
                        description,
                        batch,
                    ),
                    OutcomeView::DeadLettered,
                ),
            },
        },
    }
}

/// What renewing a lock does: a new deadline under the old token.
pub open spec fn renew_lock_step(
    m: Contents,
    c: CommandView,
    sequence: SequenceNumber,
    lock_token: LockToken,
    asked: Option<u64>,
    batch: Seq<OpView>,
) -> Step {
    match machine::config_of(m, c) {
        Err(error) => Err(error),
        Ok(config) => match shared::held_lock(m, c, sequence, lock_token) {
            Err(error) => Err(error),
            Ok((record, previous, origin)) => {
                let millis = lock_millis(config, asked);
                let locked_until = time::later(c.issued_at, millis);
                let renewed = RecordView {
                    state: MessageState::Locked { token: lock_token, locked_until, origin },
                    ..record
                };
                Ok(
                    (
                        batch.push(
                            shared::drop_key(
                                keys::lock_key(c.namespace, c.entity, previous, sequence),
                            ),
                        ).push(
                            shared::mark(
                                keys::lock_key(c.namespace, c.entity, locked_until, sequence),
                            ),
                        ).push(
                            shared::put(
                                keys::message_key(c.namespace, c.entity, sequence),
                                codec::encoded::<MessageRecord>(renewed),
                            ),
                        ),
                        OutcomeView::LockRenewed { locked_until, lock_duration_millis: millis },
                    ),
                )
            },
        },
    }
}

// ---- how it is done --------------------------------------------------------

impl<S: StateStore> StateMachine<S> {
    fn receivable(&self, command: &Command) -> (config: Result<QueueConfig, BrokerError>)
        ensures
            error::agrees(
                self.reliable(),
                config,
                receivable(self.contents(), command.deep_view()),
            ),
    {
        match self.queue_config(&command.namespace, &command.entity)? {
            Some(config) => Ok(config),
            None => {
                let key = keys::topic_config(&command.namespace, &command.entity);
                if self.lookup(key.as_slice())?.is_some() {
                    Err(BrokerError::TopicReceiveNotSupported)
                } else {
                    Err(BrokerError::QueueNotFound)
                }
            },
        }
    }

    fn hand_out(
        &self,
        command: &Command,
        config: &QueueConfig,
        mode: ReceiveMode,
        lock_duration_millis: Option<u64>,
        sequence: SequenceNumber,
        record: MessageRecord,
        batch: &mut WriteBatch,
    ) -> (outcome: Result<CommandOutcome, BrokerError>)
        ensures
            machine::stepped(
                self.reliable(),
                outcome,
                final(batch).deep_view(),
                handed_out(
                    self.contents(),
                    command.deep_view(),
                    *config,
                    mode,
                    lock_duration_millis,
                    sequence,
                    record.deep_view(),
                    old(batch).deep_view(),
                ),
            ),
    {
        let namespace = &command.namespace;
        let entity = &command.entity;
        let mut record = record;
        record.delivery_count = record.delivery_count.saturating_add(1);
        batch.push_delete(shared::ready_key(command, &record));
        match mode {
            ReceiveMode::PeekLock => {
                let mut counters = self.load_counters(command)?;
                let token = LockToken::new(counters.next_lock_token);
                counters.next_lock_token = counters.next_lock_token.saturating_add(1);
                let millis: u64 = lock_duration_millis.unwrap_or(config.lock_duration_millis);
                let locked_until = command.issued_at.saturating_add_millis(millis);
                record.state = MessageState::Locked {
                    token,
                    locked_until,
                    origin: DeliveryOrigin::Ready,
                };
                // TTL does not invalidate a live lock. The expiry index is
                // restored on abandon/lock expiry, or discarded on a
                // successful settlement.
                shared::drop_expiry(command, record.expires_at, sequence, batch);
                batch.push_put(keys::message(namespace, entity, sequence), codec::store(&record));
                batch.push_put(
                    keys::lock(namespace, entity, locked_until, sequence),
                    shared::no_value(),
                );
                batch.push_put(keys::queue_counters(namespace, entity), codec::store(&counters));
                let lock = DeliveryLock { token, locked_until, lock_duration_millis: millis };
                let mut delivery = Delivery::of(record, DeliveryOrigin::Ready, Some(lock));
                delivery.sequence = sequence;
                Ok(CommandOutcome::Received(Some(delivery)))
            },
            // At-most-once: the deletion commits before the transfer, so a
            // client that never receives the reply loses this delivery.
            ReceiveMode::ReceiveAndDelete => {
                batch.push_delete(keys::message(namespace, entity, sequence));
                shared::drop_expiry(command, record.expires_at, sequence, batch);
                let mut delivery = Delivery::of(record, DeliveryOrigin::Ready, None);
                delivery.sequence = sequence;
                Ok(CommandOutcome::Received(Some(delivery)))
            },
        }
    }

    #[verifier::loop_isolation(false)]
    pub(crate) fn receive(
        &self,
        command: &Command,
        mode: ReceiveMode,
        lock_duration_millis: Option<u64>,
        session: Option<&SessionHold>,
        batch: &mut WriteBatch,
    ) -> (outcome: Result<CommandOutcome, BrokerError>)
        ensures
            machine::stepped(
                self.reliable(),
                outcome,
                final(batch).deep_view(),
                receive_step(
                    self.contents(),
                    command.deep_view(),
                    mode,
                    lock_duration_millis,
                    session.deep_view(),
                    old(batch).deep_view(),
                ),
            ),
            outcome is Err && receive_refusal(
                self.contents(),
                command.deep_view(),
                session.deep_view(),
            ) is Some ==> final(batch).deep_view() == old(batch).deep_view(),
    {
        let config = self.receivable(command)?;
        shared::require_session_agreement(&config, session.is_some())?;
        let namespace = &command.namespace;
        let entity = &command.entity;
        let ready_prefix = match session {
            Some(hold) => {
                self.held_session(command, hold)?;
                keys::session_ready_prefix(namespace, entity, &hold.session_id)
            },
            None => keys::ready_prefix(namespace, entity),
        };
        let ready = self.scan_prefix(ready_prefix.as_slice(), MAX_RECEIVE_SCAN)?;
        let ghost m = self.contents();
        let ghost c = command.deep_view();
        let ghost entries = storage::entries_view(ready@);
        let ghost whole = receive_from(
            m,
            c,
            config,
            mode,
            lock_duration_millis,
            entries,
            batch.deep_view(),
        );
        let mut i: usize = 0;
        proof {
            assert(entries.skip(0) =~= entries);
        }
        while i < ready.len()
            invariant
                i <= ready@.len(),
                receive_from(
                    m,
                    c,
                    config,
                    mode,
                    lock_duration_millis,
                    entries.skip(i as int),
                    batch.deep_view(),
                ) == whole,
                i == 0 ==> batch.deep_view() == old(batch).deep_view(),
                i > 0 ==> first_entry_fault(m, c, entries) is None,
            decreases ready@.len() - i,
        {
            proof {
                assert(entries.skip(i as int).skip(1) =~= entries.skip(i + 1));
                assert(entries.skip(i as int)[0] == entries[i as int]);
            }
            let sequence = match keys::trailing_sequence(ready[i].0.as_slice()) {
                Some(sequence) => sequence,
                None => return Err(BrokerError::MalformedIndexKey),
            };
            let record = match self.message(namespace, entity, sequence)? {
                Some(record) => record,
                None => return Err(BrokerError::DanglingIndexEntry { sequence }),
            };
            // A timer sweep normally reaps these, but a receive must never hand
            // out a message whose lifetime has already elapsed.
            if !record.is_expired_at(command.issued_at) {
                return self.hand_out(
                    command,
                    &config,
                    mode,
                    lock_duration_millis,
                    sequence,
                    record,
                    batch,
                );
            }
            shared::expire_record(command, record, batch)?;
            i = i + 1;
        }
        Ok(CommandOutcome::Received(None))
    }

    pub(crate) fn complete(
        &self,
        command: &Command,
        sequence: SequenceNumber,
        lock_token: LockToken,
        batch: &mut WriteBatch,
    ) -> (outcome: Result<CommandOutcome, BrokerError>)
        ensures
            machine::stepped(
                self.reliable(),
                outcome,
                final(batch).deep_view(),
                complete_step(
                    self.contents(),
                    command.deep_view(),
                    sequence,
                    lock_token,
                    old(batch).deep_view(),
                ),
            ),
    {
        let (record, locked_until, _) = self.held_lock(command, sequence, lock_token)?;
        batch.push_delete(keys::message(&command.namespace, &command.entity, sequence));
        batch.push_delete(
            keys::lock(&command.namespace, &command.entity, locked_until, sequence),
        );
        shared::drop_expiry(command, record.expires_at, sequence, batch);
        Ok(CommandOutcome::Completed)
    }

    pub(crate) fn abandon(
        &self,
        command: &Command,
        sequence: SequenceNumber,
        lock_token: LockToken,
        replacement_envelope: Option<&MessageEnvelope>,
        batch: &mut WriteBatch,
    ) -> (outcome: Result<CommandOutcome, BrokerError>)
        ensures
            machine::stepped(
                self.reliable(),
                outcome,
                final(batch).deep_view(),
                abandon_step(
                    self.contents(),
                    command.deep_view(),
                    sequence,
                    lock_token,
                    replacement_envelope.deep_view(),
                    old(batch).deep_view(),
                ),
            ),
    {
        let config = self.load_config(command)?;
        let (record, locked_until, origin) = self.held_lock(command, sequence, lock_token)?;
        let record = shared::replace_envelope(&config, record, replacement_envelope)?;

        // Expiration is suspended while a receiver owns the lock. Once that
        // receiver gives it up, TTL takes precedence over redelivery.
        if record.is_expired_at(command.issued_at) {
            shared::expire_record(command, record, batch)?;
            return Ok(CommandOutcome::Abandoned { dead_lettered: true });
        }
        if shared::exceeded_delivery_limit(command, &config, &record) {
            shared::exhaust_record(command, record, batch)?;
            return Ok(CommandOutcome::Abandoned { dead_lettered: true });
        }
        shared::return_unsettled(command, record, locked_until, origin, batch)?;
        Ok(CommandOutcome::Abandoned { dead_lettered: false })
    }

    pub(crate) fn dead_letter(
        &self,
        command: &Command,
        sequence: SequenceNumber,
        lock_token: LockToken,
        reason: &str,
        description: &str,
        replacement_envelope: Option<&MessageEnvelope>,
        batch: &mut WriteBatch,
    ) -> (outcome: Result<CommandOutcome, BrokerError>)
        ensures
            machine::stepped(
                self.reliable(),
                outcome,
                final(batch).deep_view(),
                dead_letter_step(
                    self.contents(),
                    command.deep_view(),
                    sequence,
                    lock_token,
                    reason@,
                    description@,
                    replacement_envelope.deep_view(),
                    old(batch).deep_view(),
                ),
            ),
    {
        let config = self.load_config(command)?;
        let (record, _, _) = self.held_lock(command, sequence, lock_token)?;
        let record = shared::replace_envelope(&config, record, replacement_envelope)?;
        shared::move_to_dead_letter(
            command,
            record,
            DeadLetterReason::Application(reason.to_owned()),
            description.to_owned(),
            batch,
        )?;
        Ok(CommandOutcome::DeadLettered)
    }

    pub(crate) fn renew_lock(
        &self,
        command: &Command,
        sequence: SequenceNumber,
        lock_token: LockToken,
        lock_duration_millis: Option<u64>,
        batch: &mut WriteBatch,
    ) -> (outcome: Result<CommandOutcome, BrokerError>)
        ensures
            machine::stepped(
                self.reliable(),
                outcome,
                final(batch).deep_view(),
                renew_lock_step(
                    self.contents(),
                    command.deep_view(),
                    sequence,
                    lock_token,
                    lock_duration_millis,
                    old(batch).deep_view(),
                ),
            ),
    {
        let config = self.load_config(command)?;
        let (record, previous, origin) = self.held_lock(command, sequence, lock_token)?;
        let millis: u64 = lock_duration_millis.unwrap_or(config.lock_duration_millis);
        let locked_until = command.issued_at.saturating_add_millis(millis);
        let mut record = record;
        record.state = MessageState::Locked { token: lock_token, locked_until, origin };
        batch.push_delete(keys::lock(&command.namespace, &command.entity, previous, sequence));
        batch.push_put(
            keys::lock(&command.namespace, &command.entity, locked_until, sequence),
            shared::no_value(),
        );
        batch.push_put(
            keys::message(&command.namespace, &command.entity, sequence),
            codec::store(&record),
        );
        Ok(CommandOutcome::LockRenewed { locked_until, lock_duration_millis: millis })
    }
}

} // verus!
