//! Deferring locked messages and retrieving them explicitly by sequence.

use vstd::prelude::*;

use crate::bytes;
use crate::domain::codec;
use crate::domain::command::{Command, CommandOutcome, CommandView, OutcomeView};
use crate::domain::error;
use crate::domain::error::{BrokerError, ErrorView};
use crate::domain::identifier::SessionId;
use crate::domain::keys;
use crate::domain::machine;
use crate::domain::machine::delivery;
use crate::domain::machine::repeats;
use crate::domain::machine::shared;
use crate::domain::machine::{StateMachine, Step, MAX_DEFERRED_RECEIVE_BATCH};
use crate::domain::message;
use crate::domain::message::{
    DeadLetterReason, DeadLetterReasonView, Delivery, DeliveryLock, DeliveryOrigin, DeliveryView,
    EnvelopeView, LockToken, MessageEnvelope, MessageRecord, MessageState, ReceiveMode, RecordView,
    SequenceNumber,
};
use crate::domain::queue;
use crate::domain::queue::{QueueConfig, QueueCounters};
use crate::domain::session::{HoldView, SessionHold};
use crate::domain::time;
use crate::storage::{Contents, OpView, StateStore, WriteBatch};

verus! {

// ---- what is decided -------------------------------------------------------

/// What deferring does: the message leaves its lock and its expiry entry and
/// waits under its sequence number.
pub open spec fn defer_step(
    m: Contents,
    c: CommandView,
    sequence: SequenceNumber,
    lock_token: LockToken,
    replacement: Option<EnvelopeView>,
    batch: Seq<OpView>,
) -> Step {
    match machine::config_of(m, c) {
        Err(error) => Err(error),
        Ok(config) => match shared::held_lock(m, c, sequence, lock_token) {
            Err(error) => Err(error),
            Ok((record, locked_until, _)) => match shared::with_envelope(
                config,
                record,
                replacement,
            ) {
                Err(error) => Err(error),
                Ok(record) => Ok(
                    (
                        shared::without_expiry(
                            c,
                            record.expires_at,
                            sequence,
                            batch.push(
                                shared::drop_key(
                                    keys::lock_key(c.namespace, c.entity, locked_until, sequence),
                                ),
                            ),
                        ).push(
                            shared::put(
                                keys::message_key(c.namespace, c.entity, sequence),
                                codec::encoded::<MessageRecord>(
                                    RecordView { state: MessageState::Deferred, ..record },
                                ),
                            ),
                        ).push(
                            shared::mark(keys::deferred_key(c.namespace, c.entity, sequence)),
                        ),
                        OutcomeView::Deferred,
                    ),
                ),
            },
        },
    }
}

/// What is wrong with the sequence numbers of a deferred receive.
pub open spec fn sequences_fault(sequences: Seq<SequenceNumber>) -> Option<ErrorView> {
    if sequences.len() == 0 {
        Some(ErrorView::EmptyDeferredReceive)
    } else if sequences.len() > MAX_DEFERRED_RECEIVE_BATCH {
        Some(
            ErrorView::DeferredReceiveBatchTooLarge {
                count: sequences.len() as usize,
                maximum: MAX_DEFERRED_RECEIVE_BATCH,
            },
        )
    } else {
        match repeats::first_repeat(sequences) {
            Some(sequence) => Some(ErrorView::DuplicateDeferredSequence { sequence }),
            None => None,
        }
    }
}

/// The deferred message `sequence` of the session that is expected.
pub open spec fn deferred_message(
    m: Contents,
    c: CommandView,
    sequence: SequenceNumber,
    expected: Option<Seq<char>>,
) -> Result<RecordView, ErrorView> {
    match machine::message_of(m, c, sequence) {
        Err(error) => Err(error),
        Ok(record) => if record.state != MessageState::Deferred {
            Err(ErrorView::MessageNotDeferred { sequence })
        } else if record.session_id != expected {
            Err(ErrorView::DeferredMessageSessionMismatch { sequence })
        } else {
            Ok(record)
        },
    }
}

/// `found` followed by the deferred messages from index `i` on.
pub open spec fn resolved(
    m: Contents,
    c: CommandView,
    sequences: Seq<SequenceNumber>,
    expected: Option<Seq<char>>,
    i: int,
    found: Seq<RecordView>,
) -> Result<Seq<RecordView>, ErrorView>
    decreases sequences.len() - i,
{
    if i >= sequences.len() {
        Ok(found)
    } else {
        match deferred_message(m, c, sequences[i], expected) {
            Err(error) => Err(error),
            Ok(record) => resolved(m, c, sequences, expected, i + 1, found.push(record)),
        }
    }
}

/// Changes, deliveries, and the next lock token.
pub type DeferredState = (Seq<OpView>, Seq<DeliveryView>, u64);

/// One deferred message is handed out: locked, or gone from the store. An
/// expired one is dead-lettered instead.
pub open spec fn deferred_handed_out(
    c: CommandView,
    config: QueueConfig,
    mode: ReceiveMode,
    asked: Option<u64>,
    record: RecordView,
    state: DeferredState,
) -> Result<DeferredState, ErrorView> {
    let (batch, deliveries, next_token) = state;
    let sequence = record.sequence;
    let key = keys::message_key(c.namespace, c.entity, sequence);
    if message::expired(record, c.issued_at) {
        match shared::dead_lettered(
            c,
            record,
            DeadLetterReasonView::TimeToLiveExpired,
            "the deferred message exceeded its time to live"@,
            batch,
        ) {
            Err(error) => Err(error),
            Ok(longer) => Ok((longer, deliveries, next_token)),
        }
    } else {
        let counted = RecordView {
            delivery_count: shared::count_up(record.delivery_count),
            ..record
        };
        let undeferred = batch.push(
            shared::drop_key(keys::deferred_key(c.namespace, c.entity, sequence)),
        );
        match mode {
            ReceiveMode::PeekLock => {
                let token = LockToken(next_token);
                let millis = delivery::lock_millis(config, asked);
                let locked_until = time::later(c.issued_at, millis);
                let locked = RecordView {
                    state: MessageState::Locked {
                        token,
                        locked_until,
                        origin: DeliveryOrigin::Deferred,
                    },
                    ..counted
                };
                let lock = DeliveryLock { token, locked_until, lock_duration_millis: millis };
                Ok(
                    (
                        undeferred.push(
                            shared::put(key, codec::encoded::<MessageRecord>(locked)),
                        ).push(
                            shared::mark(
                                keys::lock_key(c.namespace, c.entity, locked_until, sequence),
                            ),
                        ),
                        deliveries.push(
                            message::delivery_of(locked, DeliveryOrigin::Deferred, Some(lock)),
                        ),
                        queue::bump(next_token),
                    ),
                )
            },
            ReceiveMode::ReceiveAndDelete => Ok(
                (
                    shared::without_expiry(
                        c,
                        record.expires_at,
                        sequence,
                        undeferred.push(shared::drop_key(key)),
                    ),
                    deliveries.push(message::delivery_of(counted, DeliveryOrigin::Deferred, None)),
                    next_token,
                ),
            ),
        }
    }
}

/// The messages from index `i` on are handed out in order.
pub open spec fn all_handed_out(
    c: CommandView,
    config: QueueConfig,
    mode: ReceiveMode,
    asked: Option<u64>,
    records: Seq<RecordView>,
    i: int,
    state: DeferredState,
) -> Result<DeferredState, ErrorView>
    decreases records.len() - i,
{
    if i >= records.len() {
        Ok(state)
    } else {
        match deferred_handed_out(c, config, mode, asked, records[i], state) {
            Err(error) => Err(error),
            Ok(next) => all_handed_out(c, config, mode, asked, records, i + 1, next),
        }
    }
}

/// The counters are stored again when a lock token was used.
pub open spec fn deferred_outcome(
    c: CommandView,
    mode: ReceiveMode,
    counters: QueueCounters,
    state: DeferredState,
) -> Step {
    let (changes, deliveries, next_token) = state;
    let outcome = OutcomeView::DeferredReceived(deliveries);
    if mode == ReceiveMode::PeekLock && deliveries.len() > 0 {
        Ok(
            (
                changes.push(
                    shared::put(
                        keys::queue_counters_key(c.namespace, c.entity),
                        codec::encoded::<QueueCounters>(
                            QueueCounters { next_lock_token: next_token, ..counters },
                        ),
                    ),
                ),
                outcome,
            ),
        )
    } else {
        Ok((changes, outcome))
    }
}

/// What retrieving deferred messages does once the session agrees.
pub open spec fn deferred_received(
    m: Contents,
    c: CommandView,
    config: QueueConfig,
    sequences: Seq<SequenceNumber>,
    mode: ReceiveMode,
    asked: Option<u64>,
    expected: Option<Seq<char>>,
    batch: Seq<OpView>,
) -> Step {
    match resolved(m, c, sequences, expected, 0, Seq::empty()) {
        Err(error) => Err(error),
        Ok(records) => match machine::counters_of(m, c) {
            Err(error) => Err(error),
            Ok(counters) => match all_handed_out(
                c,
                config,
                mode,
                asked,
                records,
                0,
                (batch, Seq::empty(), counters.next_lock_token),
            ) {
                Err(error) => Err(error),
                Ok(state) => deferred_outcome(c, mode, counters, state),
            },
        },
    }
}

/// What retrieving deferred messages does. One bad sequence number rejects the
/// complete request.
pub open spec fn receive_deferred_step(
    m: Contents,
    c: CommandView,
    sequences: Seq<SequenceNumber>,
    mode: ReceiveMode,
    asked: Option<u64>,
    hold: Option<HoldView>,
    batch: Seq<OpView>,
) -> Step {
    match sequences_fault(sequences) {
        Some(error) => Err(error),
        None => match machine::config_of(m, c) {
            Err(error) => Err(error),
            Ok(config) => match shared::session_fault(config, hold is Some) {
                Some(error) => Err(error),
                None => match hold {
                    None => deferred_received(m, c, config, sequences, mode, asked, None, batch),
                    Some(hold) => match shared::held_session(m, c, hold) {
                        Err(error) => Err(error),
                        Ok(_) => deferred_received(
                            m,
                            c,
                            config,
                            sequences,
                            mode,
                            asked,
                            Some(hold.session_id),
                            batch,
                        ),
                    },
                },
            },
        },
    }
}

/// Why retrieving deferred messages is refused before anything is staged: for
/// the sequence numbers, the queue, the session, a message that is not there,
/// not deferred or of another session, or the counters.
pub open spec fn deferred_refusal(
    m: Contents,
    c: CommandView,
    sequences: Seq<SequenceNumber>,
    hold: Option<HoldView>,
) -> Option<ErrorView> {
    match sequences_fault(sequences) {
        Some(error) => Some(error),
        None => match machine::config_of(m, c) {
            Err(error) => Some(error),
            Ok(config) => match shared::session_fault(config, hold is Some) {
                Some(error) => Some(error),
                None => match hold {
                    None => unresolved(m, c, sequences, None),
                    Some(hold) => match shared::held_session(m, c, hold) {
                        Err(error) => Some(error),
                        Ok(_) => unresolved(m, c, sequences, Some(hold.session_id)),
                    },
                },
            },
        },
    }
}

/// Why the messages or the counters that a deferred receive needs cannot be had.
pub open spec fn unresolved(
    m: Contents,
    c: CommandView,
    sequences: Seq<SequenceNumber>,
    expected: Option<Seq<char>>,
) -> Option<ErrorView> {
    match resolved(m, c, sequences, expected, 0, Seq::empty()) {
        Err(error) => Some(error),
        Ok(_) => match machine::counters_of(m, c) {
            Err(error) => Some(error),
            Ok(_) => None,
        },
    }
}

/// A deferred receive that is refused before anything is staged is answered with
/// that refusal, whatever the mode and the lock that were asked for.
pub proof fn deferred_refusals_are_answered(
    m: Contents,
    c: CommandView,
    sequences: Seq<SequenceNumber>,
    mode: ReceiveMode,
    asked: Option<u64>,
    hold: Option<HoldView>,
    batch: Seq<OpView>,
)
    requires
        deferred_refusal(m, c, sequences, hold) is Some,
    ensures
        receive_deferred_step(m, c, sequences, mode, asked, hold, batch) == Err::<
            (Seq<OpView>, OutcomeView),
            ErrorView,
        >(deferred_refusal(m, c, sequences, hold)->Some_0),
{
}

// ---- how it is done --------------------------------------------------------

fn validate_sequences(sequences: &[SequenceNumber]) -> (valid: Result<(), BrokerError>)
    ensures
        match valid {
            Ok(_) => sequences_fault(sequences@) is None,
            Err(error) => sequences_fault(sequences@) == Some(error.deep_view()) && !(
            error is Storage),
        },
{
    if sequences.len() == 0 {
        return Err(BrokerError::EmptyDeferredReceive);
    }
    if sequences.len() > MAX_DEFERRED_RECEIVE_BATCH {
        return Err(
            BrokerError::DeferredReceiveBatchTooLarge {
                count: sequences.len(),
                maximum: MAX_DEFERRED_RECEIVE_BATCH,
            },
        );
    }
    match repeats::find_repeat(sequences) {
        Some(sequence) => Err(BrokerError::DuplicateDeferredSequence { sequence }),
        None => Ok(()),
    }
}

/// Whether a message belongs to exactly the session that is expected.
fn same_session(actual: &Option<SessionId>, expected: Option<&SessionId>) -> (same: bool)
    ensures
        same == (actual.deep_view() == expected.deep_view()),
{
    match (actual, expected) {
        (Some(actual), Some(expected)) => bytes::same_text(actual.as_str(), expected.as_str()),
        (None, None) => true,
        _ => false,
    }
}

/// Hands one deferred message out, or dead-letters it.
fn hand_out_deferred(
    command: &Command,
    config: &QueueConfig,
    mode: ReceiveMode,
    lock_duration_millis: Option<u64>,
    record: MessageRecord,
    next_token: u64,
    batch: &mut WriteBatch,
    deliveries: &mut Vec<Delivery>,
) -> (after: Result<u64, BrokerError>)
    ensures
        match after {
            Ok(token) => deferred_handed_out(
                command.deep_view(),
                *config,
                mode,
                lock_duration_millis,
                record.deep_view(),
                (old(batch).deep_view(), old(deliveries).deep_view(), next_token),
            ) == Ok::<DeferredState, ErrorView>(
                (final(batch).deep_view(), final(deliveries).deep_view(), token),
            ),
            Err(error) => !(error is Storage) && deferred_handed_out(
                command.deep_view(),
                *config,
                mode,
                lock_duration_millis,
                record.deep_view(),
                (old(batch).deep_view(), old(deliveries).deep_view(), next_token),
            ) == Err::<DeferredState, ErrorView>(error.deep_view()),
        },
{
    let namespace = &command.namespace;
    let entity = &command.entity;
    let sequence = record.sequence;
    let ghost before = deliveries.deep_view();
    if record.is_expired_at(command.issued_at) {
        shared::move_to_dead_letter(
            command,
            record,
            DeadLetterReason::TimeToLiveExpired,
            "the deferred message exceeded its time to live".to_owned(),
            batch,
        )?;
        return Ok(next_token);
    }
    let mut record = record;
    record.delivery_count = record.delivery_count.saturating_add(1);
    batch.push_delete(keys::deferred(namespace, entity, sequence));
    match mode {
        ReceiveMode::PeekLock => {
            let token = LockToken::new(next_token);
            let millis: u64 = lock_duration_millis.unwrap_or(config.lock_duration_millis);
            let locked_until = command.issued_at.saturating_add_millis(millis);
            record.state = MessageState::Locked {
                token,
                locked_until,
                origin: DeliveryOrigin::Deferred,
            };
            batch.push_put(keys::message(namespace, entity, sequence), codec::store(&record));
            batch.push_put(
                keys::lock(namespace, entity, locked_until, sequence),
                shared::no_value(),
            );
            let lock = DeliveryLock { token, locked_until, lock_duration_millis: millis };
            let delivery = Delivery::of(record, DeliveryOrigin::Deferred, Some(lock));
            let ghost handed = delivery.deep_view();
            deliveries.push(delivery);
            proof {
                assert(deliveries.deep_view() =~= before.push(handed));
            }
            Ok(next_token.saturating_add(1))
        },
        ReceiveMode::ReceiveAndDelete => {
            batch.push_delete(keys::message(namespace, entity, sequence));
            shared::drop_expiry(command, record.expires_at, sequence, batch);
            let delivery = Delivery::of(record, DeliveryOrigin::Deferred, None);
            let ghost handed = delivery.deep_view();
            deliveries.push(delivery);
            proof {
                assert(deliveries.deep_view() =~= before.push(handed));
            }
            Ok(next_token)
        },
    }
}

impl<S: StateStore> StateMachine<S> {
    pub(crate) fn defer(
        &self,
        command: &Command,
        sequence: SequenceNumber,
        lock_token: LockToken,
        replacement_envelope: Option<&MessageEnvelope>,
        batch: &mut WriteBatch,
    ) -> (outcome: Result<CommandOutcome, BrokerError>)
        ensures
            machine::stepped(
                self.reliable(),
                outcome,
                final(batch).deep_view(),
                defer_step(
                    self.contents(),
                    command.deep_view(),
                    sequence,
                    lock_token,
                    replacement_envelope.deep_view(),
                    old(batch).deep_view(),
                ),
            ),
    {
        let config = self.load_config(command)?;
        let (record, locked_until, _) = self.held_lock(command, sequence, lock_token)?;
        let mut record = shared::replace_envelope(&config, record, replacement_envelope)?;
        record.state = MessageState::Deferred;
        batch.push_delete(
            keys::lock(&command.namespace, &command.entity, locked_until, sequence),
        );
        // A deferred message retains its absolute expiry in the record, but it
        // is checked lazily only when explicitly retrieved.
        shared::drop_expiry(command, record.expires_at, sequence, batch);
        batch.push_put(
            keys::message(&command.namespace, &command.entity, sequence),
            codec::store(&record),
        );
        batch.push_put(
            keys::deferred(&command.namespace, &command.entity, sequence),
            shared::no_value(),
        );
        Ok(CommandOutcome::Deferred)
    }

    fn deferred_message(
        &self,
        command: &Command,
        sequence: SequenceNumber,
        expected: Option<&SessionId>,
    ) -> (record: Result<MessageRecord, BrokerError>)
        ensures
            error::agrees(
                self.reliable(),
                record,
                deferred_message(
                    self.contents(),
                    command.deep_view(),
                    sequence,
                    expected.deep_view(),
                ),
            ),
    {
        let record = self.load_message(command, sequence)?;
        match record.state {
            MessageState::Deferred => {},
            _ => return Err(BrokerError::MessageNotDeferred { sequence }),
        }
        if !same_session(&record.session_id, expected) {
            return Err(BrokerError::DeferredMessageSessionMismatch { sequence });
        }
        Ok(record)
    }

    /// Resolves and validates the complete request before any mutation is
    /// staged. One bad sequence therefore cannot partially consume or lock the
    /// messages before it.
    #[verifier::loop_isolation(false)]
    fn resolve(
        &self,
        command: &Command,
        sequences: &[SequenceNumber],
        expected: Option<&SessionId>,
    ) -> (records: Result<Vec<MessageRecord>, BrokerError>)
        ensures
            error::agrees(
                self.reliable(),
                records,
                resolved(
                    self.contents(),
                    command.deep_view(),
                    sequences@,
                    expected.deep_view(),
                    0,
                    Seq::empty(),
                ),
            ),
    {
        let mut records: Vec<MessageRecord> = Vec::new();
        let mut i: usize = 0;
        let ghost m = self.contents();
        let ghost c = command.deep_view();
        let ghost whole = resolved(m, c, sequences@, expected.deep_view(), 0, Seq::empty());
        proof {
            assert(records.deep_view() =~= Seq::<RecordView>::empty());
        }
        while i < sequences.len()
            invariant
                i <= sequences@.len(),
                resolved(
                    m,
                    c,
                    sequences@,
                    expected.deep_view(),
                    i as int,
                    records.deep_view(),
                ) == whole,
            decreases sequences@.len() - i,
        {
            let record = self.deferred_message(command, sequences[i], expected)?;
            let ghost before = records.deep_view();
            let ghost found = record.deep_view();
            records.push(record);
            proof {
                assert(records.deep_view() =~= before.push(found));
            }
            i = i + 1;
        }
        Ok(records)
    }

    #[verifier::loop_isolation(false)]
    fn deferred_received(
        &self,
        command: &Command,
        config: &QueueConfig,
        sequences: &[SequenceNumber],
        mode: ReceiveMode,
        lock_duration_millis: Option<u64>,
        expected: Option<&SessionId>,
        batch: &mut WriteBatch,
    ) -> (outcome: Result<CommandOutcome, BrokerError>)
        ensures
            machine::stepped(
                self.reliable(),
                outcome,
                final(batch).deep_view(),
                deferred_received(
                    self.contents(),
                    command.deep_view(),
                    *config,
                    sequences@,
                    mode,
                    lock_duration_millis,
                    expected.deep_view(),
                    old(batch).deep_view(),
                ),
            ),
            outcome is Err && (outcome->Err_0 is Storage || unresolved(
                self.contents(),
                command.deep_view(),
                sequences@,
                expected.deep_view(),
            ) is Some) ==> final(batch).deep_view() == old(batch).deep_view(),
    {
        let mut records = self.resolve(command, sequences, expected)?;
        let ghost found = records.deep_view();
        let mut counters = self.load_counters(command)?;
        let mut deliveries: Vec<Delivery> = Vec::new();
        proof {
            assert(deliveries.deep_view() =~= Seq::<DeliveryView>::empty());
        }
        let ghost c = command.deep_view();
        let ghost stored = counters;
        let ghost whole = all_handed_out(
            c,
            *config,
            mode,
            lock_duration_millis,
            found,
            0,
            (batch.deep_view(), Seq::empty(), counters.next_lock_token),
        );
        let mut token: u64 = counters.next_lock_token;
        let ghost mut i: int = 0;
        proof {
            assert(found.skip(0) =~= found);
        }
        while records.len() > 0
            invariant
                0 <= i <= found.len(),
                records.deep_view() =~= found.skip(i),
                all_handed_out(
                    c,
                    *config,
                    mode,
                    lock_duration_millis,
                    found,
                    i,
                    (batch.deep_view(), deliveries.deep_view(), token),
                ) == whole,
            decreases records@.len(),
        {
            proof {
                assert(records.deep_view()[0] == found[i]);
            }
            let ghost before = records.deep_view();
            let record = records.remove(0);
            proof {
                assert forall|k: int| 0 <= k < records@.len() implies records.deep_view()[k]
                    == before[k + 1] by {}
                assert(records.deep_view() =~= found.skip(i + 1));
            }
            token = hand_out_deferred(
                command,
                config,
                mode,
                lock_duration_millis,
                record,
                token,
                batch,
                &mut deliveries,
            )?;
            proof {
                i = i + 1;
            }
        }
        match mode {
            ReceiveMode::PeekLock => {
                if deliveries.len() > 0 {
                    counters.next_lock_token = token;
                    batch.push_put(
                        keys::queue_counters(&command.namespace, &command.entity),
                        codec::store(&counters),
                    );
                }
            },
            ReceiveMode::ReceiveAndDelete => {},
        }
        Ok(CommandOutcome::DeferredReceived(deliveries))
    }

    pub(crate) fn receive_deferred(
        &self,
        command: &Command,
        sequences: &[SequenceNumber],
        mode: ReceiveMode,
        lock_duration_millis: Option<u64>,
        session: Option<&SessionHold>,
        batch: &mut WriteBatch,
    ) -> (outcome: Result<CommandOutcome, BrokerError>)
        ensures
            machine::stepped(
                self.reliable(),
                outcome,
                final(batch).deep_view(),
                receive_deferred_step(
                    self.contents(),
                    command.deep_view(),
                    sequences@,
                    mode,
                    lock_duration_millis,
                    session.deep_view(),
                    old(batch).deep_view(),
                ),
            ),
            outcome is Err && (outcome->Err_0 is Storage || deferred_refusal(
                self.contents(),
                command.deep_view(),
                sequences@,
                session.deep_view(),
            ) is Some) ==> final(batch).deep_view() == old(batch).deep_view(),
    {
        validate_sequences(sequences)?;
        let config = self.load_config(command)?;
        shared::require_session_agreement(&config, session.is_some())?;
        let expected: Option<&SessionId> = match session {
            Some(hold) => {
                self.held_session(command, hold)?;
                Some(&hold.session_id)
            },
            None => None,
        };
        self.deferred_received(
            command,
            &config,
            sequences,
            mode,
            lock_duration_millis,
            expected,
            batch,
        )
    }
}

} // verus!
