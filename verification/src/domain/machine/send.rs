//! Singular and atomic batch sends.

use vstd::prelude::*;

use crate::bytes;
use crate::domain::codec;
use crate::domain::command::{
    Command, CommandOutcome, CommandView, InputView, MessageInput, OutcomeView,
};
use crate::domain::error::{BrokerError, ErrorView};
use crate::domain::identifier;
use crate::domain::identifier::SessionId;
use crate::domain::keys;
use crate::domain::machine;
use crate::domain::machine::duplicate;
use crate::domain::machine::shared;
use crate::domain::machine::topic;
use crate::domain::machine::{StateMachine, Step};
use crate::domain::message;
use crate::domain::message::{
    MessageEnvelope, MessageRecord, MessageState, RecordView, SequenceNumber,
};
use crate::domain::queue;
use crate::domain::queue::{QueueConfig, QueueCounters};
use crate::domain::time;
use crate::domain::time::Timestamp;
use crate::storage::{Contents, OpView, StateStore, WriteBatch};

verus! {

/// One message of a send, wherever its fields stand.
#[derive(Clone, Copy)]
pub struct SendInput<'a> {
    pub message_id: &'a str,
    pub body: &'a [u8],
    pub time_to_live_millis: Option<u64>,
    pub session_id: Option<&'a SessionId>,
    pub scheduled_enqueue_at: Option<Timestamp>,
    pub envelope: Option<&'a MessageEnvelope>,
}

impl<'a> DeepView for SendInput<'a> {
    type V = InputView;

    open spec fn deep_view(&self) -> InputView {
        InputView {
            message_id: self.message_id@,
            body: self.body@,
            time_to_live_millis: self.time_to_live_millis,
            session_id: self.session_id.deep_view(),
            scheduled_enqueue_at: self.scheduled_enqueue_at,
            envelope: self.envelope.deep_view(),
        }
    }
}

// ---- what is decided -------------------------------------------------------

/// The size that counts against a limit: the envelope's, or else the body's.
pub open spec fn message_bytes(input: InputView) -> nat {
    match input.envelope {
        Some(envelope) => envelope.bytes.len(),
        None => input.body.len(),
    }
}

/// What stops one message from being sent to a queue.
pub open spec fn input_fault(config: QueueConfig, input: InputView) -> Option<ErrorView> {
    match shared::session_fault(config, input.session_id is Some) {
        Some(error) => Some(error),
        None => if message_bytes(input) > config.max_message_bytes {
            Some(
                ErrorView::MessageTooLarge {
                    body_bytes: message_bytes(input) as usize,
                    maximum_bytes: config.max_message_bytes,
                },
            )
        } else {
            None
        },
    }
}

/// The first fault from index `i` on.
pub open spec fn fault_from(config: QueueConfig, inputs: Seq<InputView>, i: int) -> Option<
    ErrorView,
>
    decreases inputs.len() - i,
{
    if i >= inputs.len() {
        None
    } else {
        match input_fault(config, inputs[i]) {
            Some(error) => Some(error),
            None => fault_from(config, inputs, i + 1),
        }
    }
}

/// Messages of a batch name different sessions on a session queue.
pub open spec fn sessions_differ(config: QueueConfig, inputs: Seq<InputView>) -> bool {
    config.requires_session && exists|i: int|
        1 <= i < inputs.len() && (#[trigger] inputs[i]).session_id != inputs[0].session_id
}

/// A lifetime as asked for, or else the default.
pub open spec fn effective_lifetime(asked: Option<u64>, default: Option<u64>) -> Option<u64> {
    match asked {
        Some(millis) => Some(millis),
        None => default,
    }
}

/// The stored form of a message: ready, or a placeholder until it is due.
pub open spec fn new_record(
    c: CommandView,
    input: InputView,
    sequence: SequenceNumber,
    lifetime: Option<u64>,
) -> RecordView {
    let start = match input.scheduled_enqueue_at {
        Some(at) => at,
        None => c.issued_at,
    };
    RecordView {
        sequence,
        message_id: input.message_id,
        body: input.body,
        enqueued_at: c.issued_at,
        scheduled_enqueue_at: input.scheduled_enqueue_at,
        expires_at: match lifetime {
            Some(millis) => Some(time::later(start, millis)),
            None => None,
        },
        delivery_count: 0,
        state: if input.scheduled_enqueue_at is Some {
            MessageState::Scheduled
        } else {
            MessageState::Ready
        },
        session_id: input.session_id,
        dead_letter: None,
        envelope: message::kept(input.envelope),
    }
}

/// The message is stored and enters the index of its state.
pub open spec fn stored_changes(c: CommandView, record: RecordView, batch: Seq<OpView>) -> Seq<
    OpView,
> {
    let kept = batch.push(
        shared::put(
            keys::message_key(c.namespace, c.entity, record.sequence),
            codec::encoded::<MessageRecord>(record),
        ),
    );
    match record.scheduled_enqueue_at {
        Some(at) => kept.push(
            shared::mark(keys::scheduled_key(c.namespace, c.entity, at, record.sequence)),
        ),
        None => shared::with_expiry(
            c,
            record.expires_at,
            record.sequence,
            kept.push(shared::mark(shared::ready_entry(c, record))),
        ),
    }
}

/// Changes and the next sequence number.
pub type SendState = (Seq<OpView>, u64);

/// The messages from index `i` on take a sequence number each; those that are
/// not suppressed are stored.
pub open spec fn stored_from(
    c: CommandView,
    config: QueueConfig,
    inputs: Seq<InputView>,
    stored: Seq<bool>,
    i: int,
    state: SendState,
) -> SendState
    decreases inputs.len() - i,
{
    if i >= inputs.len() {
        state
    } else {
        let record = new_record(
            c,
            inputs[i],
            SequenceNumber(state.1),
            effective_lifetime(
                inputs[i].time_to_live_millis,
                config.default_time_to_live_millis,
            ),
        );
        stored_from(
            c,
            config,
            inputs,
            stored,
            i + 1,
            (
                if stored[i] {
                    stored_changes(c, record, state.0)
                } else {
                    state.0
                },
                queue::bump(state.1),
            ),
        )
    }
}

/// `n` sequence numbers from `next` on, held at the largest.
pub open spec fn numbers(next: u64, n: nat) -> Seq<SequenceNumber>
    decreases n,
{
    if n == 0 {
        Seq::empty()
    } else {
        seq![SequenceNumber(next)] + numbers(queue::bump(next), (n - 1) as nat)
    }
}

/// Changes, sequence numbers, and which messages were stored.
pub type Persisted = (Seq<OpView>, (Seq<SequenceNumber>, Seq<bool>));

/// What sending to a queue does. Every message is validated before anything is
/// staged. A subscription gets its messages from its topic alone.
pub open spec fn persisted(
    m: Contents,
    c: CommandView,
    inputs: Seq<InputView>,
    batch: Seq<OpView>,
) -> Result<Persisted, ErrorView> {
    if identifier::names_dead_letter_queue(c.entity) {
        Err(ErrorView::DeadLetterQueueIsReserved)
    } else if topic::is_subscription(m, c.namespace, c.entity) {
        Err(ErrorView::SubscriptionSendNotAllowed)
    } else {
        match machine::config_of(m, c) {
            Err(error) => Err(error),
            Ok(config) => match fault_from(config, inputs, 0) {
                Some(error) => Err(error),
                None => if sessions_differ(config, inputs) {
                    Err(ErrorView::MessageBatchSessionMismatch)
                } else {
                    match duplicate::history(m, c, config, inputs, batch) {
                        Err(error) => Err(error),
                        Ok((staged, stored)) => match machine::counters_of(m, c) {
                            Err(error) => Err(error),
                            Ok(counters) => {
                                let sent = stored_from(
                                    c,
                                    config,
                                    inputs,
                                    stored,
                                    0,
                                    (staged, counters.next_sequence),
                                );
                                Ok(
                                    (
                                        sent.0.push(
                                            shared::put(
                                                keys::queue_counters_key(c.namespace, c.entity),
                                                codec::encoded::<QueueCounters>(
                                                    QueueCounters {
                                                        next_sequence: sent.1,
                                                        ..counters
                                                    },
                                                ),
                                            ),
                                        ),
                                        (numbers(counters.next_sequence, inputs.len()), stored),
                                    ),
                                )
                            },
                        },
                    }
                },
            },
        }
    }
}

/// How many of the first `n` were stored.
pub open spec fn stored_count(stored: Seq<bool>, n: int) -> nat
    decreases n,
{
    if n <= 0 {
        0
    } else {
        stored_count(stored, n - 1) + if stored[n - 1] {
            1nat
        } else {
            0nat
        }
    }
}

/// `n`, held at the largest value.
pub open spec fn clamped(n: nat) -> u32 {
    if n <= u32::MAX {
        n as u32
    } else {
        u32::MAX
    }
}

/// What a send to a queue does.
pub open spec fn queue_send_step(
    m: Contents,
    c: CommandView,
    input: InputView,
    batch: Seq<OpView>,
) -> Step {
    match persisted(m, c, seq![input], batch) {
        Err(error) => Err(error),
        Ok((changes, (sequences, stored))) => Ok(
            (
                changes,
                if stored[0] {
                    OutcomeView::Sent { sequence: sequences[0] }
                } else {
                    OutcomeView::DuplicateSuppressed { sequence: sequences[0] }
                },
            ),
        ),
    }
}

/// What a batch send to a queue does.
pub open spec fn queue_send_batch_step(
    m: Contents,
    c: CommandView,
    inputs: Seq<InputView>,
    batch: Seq<OpView>,
) -> Step {
    if inputs.len() == 0 {
        Err(ErrorView::EmptyMessageBatch)
    } else {
        match persisted(m, c, inputs, batch) {
            Err(error) => Err(error),
            Ok((changes, (sequences, stored))) => Ok(
                (
                    changes,
                    OutcomeView::BatchSent {
                        sequences,
                        stored: clamped(stored_count(stored, stored.len() as int)),
                    },
                ),
            ),
        }
    }
}

// ---- how it is done --------------------------------------------------------

impl<'a> SendInput<'a> {
    /// The message as an input.
    pub fn of(input: &'a MessageInput) -> (seen: SendInput<'a>)
        ensures
            seen.deep_view() == input.deep_view(),
    {
        SendInput {
            message_id: input.message_id.as_str(),
            body: input.body.as_slice(),
            time_to_live_millis: input.time_to_live_millis,
            session_id: input.session_id.as_ref(),
            scheduled_enqueue_at: input.scheduled_enqueue_at,
            envelope: input.envelope.as_ref(),
        }
    }

    /// The size that counts against a limit.
    pub fn bytes(&self) -> (n: usize)
        ensures
            n == message_bytes(self.deep_view()),
    {
        match self.envelope {
            Some(envelope) => envelope.len(),
            None => self.body.len(),
        }
    }
}

fn validate_input(config: &QueueConfig, input: &SendInput<'_>) -> (valid: Result<(), BrokerError>)
    ensures
        match valid {
            Ok(_) => input_fault(*config, input.deep_view()) is None,
            Err(error) => input_fault(*config, input.deep_view()) == Some(error.deep_view()) && !(
            error is Storage),
        },
{
    shared::require_session_agreement(config, input.session_id.is_some())?;
    let message_bytes: usize = input.bytes();
    if message_bytes > config.max_message_bytes {
        return Err(
            BrokerError::MessageTooLarge {
                body_bytes: message_bytes,
                maximum_bytes: config.max_message_bytes,
            },
        );
    }
    Ok(())
}

#[verifier::loop_isolation(false)]
fn validate_inputs(config: &QueueConfig, inputs: &[SendInput<'_>]) -> (valid: Result<
    (),
    BrokerError,
>)
    ensures
        match valid {
            Ok(_) => fault_from(*config, duplicate::inputs_view(inputs@), 0) is None,
            Err(error) => fault_from(*config, duplicate::inputs_view(inputs@), 0) == Some(
                error.deep_view(),
            ) && !(error is Storage),
        },
{
    let ghost v = duplicate::inputs_view(inputs@);
    let mut i: usize = 0;
    while i < inputs.len()
        invariant
            i <= inputs@.len(),
            fault_from(*config, v, i as int) == fault_from(*config, v, 0),
        decreases inputs@.len() - i,
    {
        assert(v[i as int] == inputs@[i as int].deep_view());
        validate_input(config, &inputs[i])?;
        i = i + 1;
    }
    Ok(())
}

fn same_session(a: Option<&SessionId>, b: Option<&SessionId>) -> (same: bool)
    ensures
        same == (a.deep_view() == b.deep_view()),
{
    match (a, b) {
        (Some(a), Some(b)) => bytes::same_text(a.as_str(), b.as_str()),
        (None, None) => true,
        _ => false,
    }
}

#[verifier::loop_isolation(false)]
fn validate_batch_session(config: &QueueConfig, inputs: &[SendInput<'_>]) -> (valid: Result<
    (),
    BrokerError,
>)
    ensures
        match valid {
            Ok(_) => !sessions_differ(*config, duplicate::inputs_view(inputs@)),
            Err(error) => sessions_differ(*config, duplicate::inputs_view(inputs@)) && error
                == BrokerError::MessageBatchSessionMismatch,
        },
{
    if !config.requires_session || inputs.len() < 2 {
        return Ok(());
    }
    let ghost v = duplicate::inputs_view(inputs@);
    let mut i: usize = 1;
    while i < inputs.len()
        invariant
            1 <= i <= inputs@.len(),
            forall|j: int| 1 <= j < i ==> (#[trigger] v[j]).session_id == v[0].session_id,
        decreases inputs@.len() - i,
    {
        if !same_session(inputs[i].session_id, inputs[0].session_id) {
            assert(v[i as int].session_id != v[0].session_id);
            return Err(BrokerError::MessageBatchSessionMismatch);
        }
        i = i + 1;
    }
    Ok(())
}

pub(crate) fn effective_time_to_live(asked: Option<u64>, default: Option<u64>) -> (millis: Option<
    u64,
>)
    ensures
        millis == effective_lifetime(asked, default),
{
    match asked {
        Some(millis) => Some(millis),
        None => default,
    }
}

pub(crate) fn message_record(
    command: &Command,
    input: &SendInput<'_>,
    sequence: SequenceNumber,
    lifetime: Option<u64>,
) -> (record: MessageRecord)
    ensures
        record.deep_view() == new_record(
            command.deep_view(),
            input.deep_view(),
            sequence,
            lifetime,
        ),
{
    let start = match input.scheduled_enqueue_at {
        Some(at) => at,
        None => command.issued_at,
    };
    let expires_at = match lifetime {
        Some(millis) => Some(start.saturating_add_millis(millis)),
        None => None,
    };
    let session_id: Option<SessionId> = match input.session_id {
        Some(id) => Some(id.clone()),
        None => None,
    };
    let envelope: Option<MessageEnvelope> = match input.envelope {
        Some(envelope) => Some(envelope.to_stored()),
        None => None,
    };
    MessageRecord {
        sequence,
        message_id: input.message_id.to_owned(),
        body: bytes::copy_bytes(input.body),
        enqueued_at: command.issued_at,
        scheduled_enqueue_at: input.scheduled_enqueue_at,
        expires_at,
        delivery_count: 0,
        state: if input.scheduled_enqueue_at.is_some() {
            MessageState::Scheduled
        } else {
            MessageState::Ready
        },
        session_id,
        dead_letter: None,
        envelope,
    }
}

fn store_message(command: &Command, record: &MessageRecord, batch: &mut WriteBatch)
    ensures
        final(batch).deep_view() == stored_changes(
            command.deep_view(),
            record.deep_view(),
            old(batch).deep_view(),
        ),
{
    let namespace = &command.namespace;
    let entity = &command.entity;
    batch.push_put(keys::message(namespace, entity, record.sequence), codec::store(record));
    match record.scheduled_enqueue_at {
        Some(at) => {
            batch.push_put(
                keys::scheduled(namespace, entity, at, record.sequence),
                shared::no_value(),
            );
        },
        None => {
            batch.push_put(shared::ready_key(command, record), shared::no_value());
            shared::mark_expiry(command, record.expires_at, record.sequence, batch);
        },
    }
}

/// How many entries are set.
#[verifier::loop_isolation(false)]
fn count_stored(stored: &Vec<bool>) -> (n: u32)
    ensures
        n == clamped(stored_count(stored@, stored@.len() as int)),
{
    let mut n: u32 = 0;
    let mut i: usize = 0;
    while i < stored.len()
        invariant
            i <= stored@.len(),
            n == clamped(stored_count(stored@, i as int)),
        decreases stored@.len() - i,
    {
        if stored[i] {
            n = n.saturating_add(1);
        }
        i = i + 1;
    }
    n
}

impl<S: StateStore> StateMachine<S> {
    /// Validates every child before adding any storage mutation.
    #[verifier::loop_isolation(false)]
    fn persist_messages(
        &self,
        command: &Command,
        inputs: &[SendInput<'_>],
        batch: &mut WriteBatch,
    ) -> (done: Result<(Vec<SequenceNumber>, Vec<bool>), BrokerError>)
        ensures
            match done {
                Ok((sequences, stored)) => persisted(
                    self.contents(),
                    command.deep_view(),
                    duplicate::inputs_view(inputs@),
                    old(batch).deep_view(),
                ) == Ok::<Persisted, ErrorView>(
                    (final(batch).deep_view(), (sequences@, stored@)),
                ) && sequences@.len() == inputs@.len() && stored@.len() == inputs@.len(),
                Err(BrokerError::Storage(_)) => !self.reliable(),
                Err(error) => persisted(
                    self.contents(),
                    command.deep_view(),
                    duplicate::inputs_view(inputs@),
                    old(batch).deep_view(),
                ) == Err::<Persisted, ErrorView>(error.deep_view()),
            },
    {
        if command.entity.is_dead_letter_queue() {
            return Err(BrokerError::DeadLetterQueueIsReserved);
        }
        if self.is_subscription(&command.namespace, &command.entity)? {
            return Err(BrokerError::SubscriptionSendNotAllowed);
        }
        let config = self.load_config(command)?;
        validate_inputs(&config, inputs)?;
        validate_batch_session(&config, inputs)?;
        let stored = self.stage_duplicate_history(command, &config, inputs, batch)?;
        let mut counters = self.load_counters(command)?;
        let ghost c = command.deep_view();
        let ghost v = duplicate::inputs_view(inputs@);
        let ghost kept = counters;
        let ghost whole = stored_from(
            c,
            config,
            v,
            stored@,
            0,
            (batch.deep_view(), counters.next_sequence),
        );
        let mut sequences: Vec<SequenceNumber> = Vec::new();
        let mut i: usize = 0;
        proof {
            assert(sequences@ + numbers(counters.next_sequence, v.len()) =~= numbers(
                counters.next_sequence,
                v.len(),
            ));
        }
        while i < inputs.len()
            invariant
                i <= inputs@.len(),
                sequences@.len() == i,
                counters.next_lock_token == kept.next_lock_token,
                sequences@ + numbers(counters.next_sequence, (v.len() - i) as nat) == numbers(
                    kept.next_sequence,
                    v.len(),
                ),
                stored_from(
                    c,
                    config,
                    v,
                    stored@,
                    i as int,
                    (batch.deep_view(), counters.next_sequence),
                ) == whole,
            decreases inputs@.len() - i,
        {
            assert(v[i as int] == inputs@[i as int].deep_view());
            let sequence = SequenceNumber::new(counters.next_sequence);
            let ghost rest = numbers(queue::bump(counters.next_sequence), (v.len() - i - 1) as nat);
            let ghost before = sequences@;
            counters.next_sequence = counters.next_sequence.saturating_add(1);
            if stored[i] {
                let lifetime = effective_time_to_live(
                    inputs[i].time_to_live_millis,
                    config.default_time_to_live_millis,
                );
                let record = message_record(command, &inputs[i], sequence, lifetime);
                store_message(command, &record, batch);
            }
            sequences.push(sequence);
            proof {
                assert(before.push(sequence) + rest =~= before + (seq![sequence] + rest));
            }
            i = i + 1;
        }
        proof {
            assert(sequences@ + numbers(counters.next_sequence, 0) =~= sequences@);
        }
        batch.push_put(
            keys::queue_counters(&command.namespace, &command.entity),
            codec::store(&counters),
        );
        Ok((sequences, stored))
    }

    pub(crate) fn queue_send(
        &self,
        command: &Command,
        input: SendInput<'_>,
        batch: &mut WriteBatch,
    ) -> (outcome: Result<CommandOutcome, BrokerError>)
        ensures
            machine::stepped(
                self.reliable(),
                outcome,
                final(batch).deep_view(),
                queue_send_step(
                    self.contents(),
                    command.deep_view(),
                    input.deep_view(),
                    old(batch).deep_view(),
                ),
            ),
    {
        let mut inputs: Vec<SendInput<'_>> = Vec::new();
        inputs.push(input);
        proof {
            assert(duplicate::inputs_view(inputs@) =~= seq![input.deep_view()]);
        }
        let (sequences, stored) = self.persist_messages(command, inputs.as_slice(), batch)?;
        let sequence = sequences[0];
        if stored[0] {
            Ok(CommandOutcome::Sent { sequence })
        } else {
            Ok(CommandOutcome::DuplicateSuppressed { sequence })
        }
    }

    pub(crate) fn queue_send_batch(
        &self,
        command: &Command,
        inputs: &[SendInput<'_>],
        batch: &mut WriteBatch,
    ) -> (outcome: Result<CommandOutcome, BrokerError>)
        ensures
            machine::stepped(
                self.reliable(),
                outcome,
                final(batch).deep_view(),
                queue_send_batch_step(
                    self.contents(),
                    command.deep_view(),
                    duplicate::inputs_view(inputs@),
                    old(batch).deep_view(),
                ),
            ),
    {
        if inputs.len() == 0 {
            return Err(BrokerError::EmptyMessageBatch);
        }
        let (sequences, stored) = self.persist_messages(command, inputs, batch)?;
        let count: u32 = count_stored(&stored);
        Ok(CommandOutcome::BatchSent { sequences, stored: count })
    }
}

} // verus!
