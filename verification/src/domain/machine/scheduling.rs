//! Scheduled message cancellation and activation.

use vstd::prelude::*;

use crate::bytes;
use crate::domain::codec;
use crate::domain::command::{Command, CommandOutcome, CommandView, OutcomeView};
use crate::domain::error;
use crate::domain::error::{BrokerError, ErrorView};
use crate::domain::identifier;
use crate::domain::keys;
use crate::domain::machine;
use crate::domain::machine::repeats;
use crate::domain::machine::shared;
use crate::domain::machine::{StateMachine, Step, TIMER_SCAN_LIMIT};
use crate::domain::message::{MessageRecord, MessageState, RecordView, SequenceNumber};
use crate::domain::queue;
use crate::domain::queue::QueueCounters;
use crate::domain::time;
use crate::domain::time::Timestamp;
use crate::storage;
use crate::storage::{Contents, OpView, StateStore, WriteBatch};

verus! {

// ---- what is decided -------------------------------------------------------

/// What is wrong with the sequence numbers of a cancellation.
pub open spec fn cancellation_fault(sequences: Seq<SequenceNumber>) -> Option<ErrorView> {
    if sequences.len() == 0 {
        Some(ErrorView::EmptyScheduledCancellation)
    } else {
        match repeats::first_repeat(sequences) {
            Some(sequence) => Some(ErrorView::DuplicateScheduledSequence { sequence }),
            None => None,
        }
    }
}

/// When the scheduled message `sequence` is due.
pub open spec fn due_time(m: Contents, c: CommandView, sequence: SequenceNumber) -> Result<
    Timestamp,
    ErrorView,
> {
    match machine::message_of(m, c, sequence) {
        Err(error) => Err(error),
        Ok(record) => if record.state != MessageState::Scheduled {
            Err(ErrorView::MessageNotScheduled { sequence })
        } else {
            match record.scheduled_enqueue_at {
                Some(at) => Ok(at),
                None => Err(ErrorView::ScheduledEnqueueTimeMissing { sequence }),
            }
        },
    }
}

/// `found` followed by the due times from index `i` on.
pub open spec fn due_times(
    m: Contents,
    c: CommandView,
    sequences: Seq<SequenceNumber>,
    i: int,
    found: Seq<Timestamp>,
) -> Result<Seq<Timestamp>, ErrorView>
    decreases sequences.len() - i,
{
    if i >= sequences.len() {
        Ok(found)
    } else {
        match due_time(m, c, sequences[i]) {
            Err(error) => Err(error),
            Ok(at) => due_times(m, c, sequences, i + 1, found.push(at)),
        }
    }
}

/// `batch` with the first `n` placeholders removed.
pub open spec fn removed(
    c: CommandView,
    sequences: Seq<SequenceNumber>,
    due: Seq<Timestamp>,
    n: int,
    batch: Seq<OpView>,
) -> Seq<OpView>
    decreases n,
{
    if n <= 0 {
        batch
    } else {
        removed(c, sequences, due, n - 1, batch).push(
            shared::drop_key(
                keys::scheduled_key(c.namespace, c.entity, due[n - 1], sequences[n - 1]),
            ),
        ).push(shared::drop_key(keys::message_key(c.namespace, c.entity, sequences[n - 1])))
    }
}

/// What a cancellation does. A stale or already-activated sequence cannot
/// partially cancel the messages that precede it.
pub open spec fn cancel_scheduled_step(
    m: Contents,
    c: CommandView,
    sequences: Seq<SequenceNumber>,
    batch: Seq<OpView>,
) -> Step {
    match cancellation_fault(sequences) {
        Some(error) => Err(error),
        None => if identifier::names_dead_letter_queue(c.entity) {
            Err(ErrorView::DeadLetterQueueIsReserved)
        } else {
            match machine::config_of(m, c) {
                Err(error) => Err(error),
                Ok(_) => match due_times(m, c, sequences, 0, Seq::empty()) {
                    Err(error) => Err(error),
                    Ok(due) => Ok(
                        (
                            removed(c, sequences, due, sequences.len() as int, batch),
                            OutcomeView::ScheduledCancelled {
                                cancelled: if sequences.len() <= u32::MAX {
                                    sequences.len() as u32
                                } else {
                                    u32::MAX
                                },
                            },
                        ),
                    ),
                },
            }
        },
    }
}

/// How long a placeholder lives once it is active: what its recorded deadline
/// leaves after its due time.
pub open spec fn lifetime(record: RecordView, enqueue_at: Timestamp) -> Option<u64> {
    match record.expires_at {
        Some(at) => Some(
            if at.0 >= enqueue_at.0 {
                (at.0 - enqueue_at.0) as u64
            } else {
                0
            },
        ),
        None => None,
    }
}

/// A placeholder as the active message `sequence`.
pub open spec fn active_record(
    record: RecordView,
    enqueue_at: Timestamp,
    sequence: SequenceNumber,
    now: Timestamp,
) -> RecordView {
    RecordView {
        sequence,
        enqueued_at: now,
        expires_at: match lifetime(record, enqueue_at) {
            Some(millis) => Some(time::later(now, millis)),
            None => None,
        },
        state: MessageState::Ready,
        ..record
    }
}

/// The placeholder behind a due index entry.
pub open spec fn due_record(
    m: Contents,
    c: CommandView,
    enqueue_at: Timestamp,
    sequence: SequenceNumber,
) -> Result<RecordView, ErrorView> {
    match machine::message_at(m, c.namespace, c.entity, sequence) {
        Err(error) => Err(error),
        Ok(None) => Err(ErrorView::DanglingIndexEntry { sequence }),
        Ok(Some(record)) => if record.state != MessageState::Scheduled {
            Err(ErrorView::MessageNotScheduled { sequence })
        } else {
            match record.scheduled_enqueue_at {
                None => Err(ErrorView::ScheduledEnqueueTimeMissing { sequence }),
                Some(recorded) => if recorded != enqueue_at {
                    Err(ErrorView::MalformedIndexKey)
                } else {
                    Ok(record)
                },
            }
        },
    }
}

/// The placeholder gives way to the active message.
pub open spec fn activated_changes(
    c: CommandView,
    index_key: Seq<u8>,
    placeholder: SequenceNumber,
    active: RecordView,
    batch: Seq<OpView>,
) -> Seq<OpView> {
    shared::with_expiry(
        c,
        active.expires_at,
        active.sequence,
        batch.push(shared::drop_key(index_key)).push(
            shared::drop_key(keys::message_key(c.namespace, c.entity, placeholder)),
        ).push(
            shared::put(
                keys::message_key(c.namespace, c.entity, active.sequence),
                codec::encoded::<MessageRecord>(active),
            ),
        ).push(shared::mark(shared::ready_entry(c, active))),
    )
}

/// Changes, the next sequence number, and how many were activated.
pub type ActivationState = (Seq<OpView>, u64, nat);

/// The due placeholders among `due` are activated in order; the first that is
/// not due ends the sweep.
pub open spec fn activate_due(
    m: Contents,
    c: CommandView,
    due: Seq<(Seq<u8>, Seq<u8>)>,
    state: ActivationState,
) -> Result<ActivationState, ErrorView>
    decreases due.len(),
{
    if due.len() == 0 {
        Ok(state)
    } else {
        match keys::last_deadline(due[0].0) {
            None => Err(ErrorView::MalformedIndexKey),
            Some((enqueue_at, placeholder)) => if enqueue_at.0 > c.issued_at.0 {
                Ok(state)
            } else {
                match due_record(m, c, enqueue_at, placeholder) {
                    Err(error) => Err(error),
                    Ok(record) => activate_due(
                        m,
                        c,
                        due.skip(1),
                        (
                            activated_changes(
                                c,
                                due[0].0,
                                placeholder,
                                active_record(
                                    record,
                                    enqueue_at,
                                    SequenceNumber(state.1),
                                    c.issued_at,
                                ),
                                state.0,
                            ),
                            queue::bump(state.1),
                            state.2 + 1,
                        ),
                    ),
                }
            },
        }
    }
}

/// The counters are stored again when a sequence number was used.
pub open spec fn activation_outcome(
    c: CommandView,
    counters: QueueCounters,
    state: ActivationState,
) -> Step {
    let outcome = OutcomeView::ScheduledActivated { activated: state.2 as u32 };
    if state.2 > 0 {
        Ok(
            (
                state.0.push(
                    shared::put(
                        keys::queue_counters_key(c.namespace, c.entity),
                        codec::encoded::<QueueCounters>(
                            QueueCounters { next_sequence: state.1, ..counters },
                        ),
                    ),
                ),
                outcome,
            ),
        )
    } else {
        Ok((state.0, outcome))
    }
}

/// What the activation sweep does.
pub open spec fn activate_scheduled_step(m: Contents, c: CommandView, batch: Seq<OpView>) -> Step {
    match machine::config_of(m, c) {
        Err(error) => Err(error),
        Ok(_) => match machine::counters_of(m, c) {
            Err(error) => Err(error),
            Ok(counters) => {
                let prefix = keys::scheduled_prefix_key(c.namespace, c.entity);
                match activate_due(
                    m,
                    c,
                    storage::scan(m, prefix, prefix, TIMER_SCAN_LIMIT),
                    (batch, counters.next_sequence, 0),
                ) {
                    Err(error) => Err(error),
                    Ok(state) => activation_outcome(c, counters, state),
                }
            },
        },
    }
}

// ---- how it is done --------------------------------------------------------

fn validate_cancellation(sequences: &[SequenceNumber]) -> (valid: Result<(), BrokerError>)
    ensures
        match valid {
            Ok(_) => cancellation_fault(sequences@) is None,
            Err(error) => cancellation_fault(sequences@) == Some(error.deep_view()) && !(
            error is Storage),
        },
{
    if sequences.len() == 0 {
        return Err(BrokerError::EmptyScheduledCancellation);
    }
    match repeats::find_repeat(sequences) {
        Some(sequence) => Err(BrokerError::DuplicateScheduledSequence { sequence }),
        None => Ok(()),
    }
}

fn scheduled_lifetime(record: &MessageRecord, enqueue_at: Timestamp) -> (millis: Option<u64>)
    ensures
        millis == lifetime(record.deep_view(), enqueue_at),
{
    match record.expires_at {
        Some(at) => Some(at.0.saturating_sub(enqueue_at.0)),
        None => None,
    }
}

/// Replaces a placeholder by its active message.
fn activate(
    command: &Command,
    index_key: &[u8],
    placeholder: SequenceNumber,
    record: MessageRecord,
    enqueue_at: Timestamp,
    sequence: SequenceNumber,
    batch: &mut WriteBatch,
)
    ensures
        final(batch).deep_view() == activated_changes(
            command.deep_view(),
            index_key@,
            placeholder,
            active_record(record.deep_view(), enqueue_at, sequence, command.issued_at),
            old(batch).deep_view(),
        ),
{
    let namespace = &command.namespace;
    let entity = &command.entity;
    batch.push_delete(bytes::copy_bytes(index_key));
    batch.push_delete(keys::message(namespace, entity, placeholder));
    let millis = scheduled_lifetime(&record, enqueue_at);
    let mut record = record;
    record.sequence = sequence;
    record.enqueued_at = command.issued_at;
    record.expires_at = match millis {
        Some(millis) => Some(command.issued_at.saturating_add_millis(millis)),
        None => None,
    };
    record.state = MessageState::Ready;
    batch.push_put(keys::message(namespace, entity, sequence), codec::store(&record));
    batch.push_put(shared::ready_key(command, &record), shared::no_value());
    shared::mark_expiry(command, record.expires_at, sequence, batch);
}

impl<S: StateStore> StateMachine<S> {
    fn due_time(&self, command: &Command, sequence: SequenceNumber) -> (at: Result<
        Timestamp,
        BrokerError,
    >)
        ensures
            error::agrees(
                self.reliable(),
                at,
                due_time(self.contents(), command.deep_view(), sequence),
            ),
    {
        let record = self.load_message(command, sequence)?;
        match record.state {
            MessageState::Scheduled => {},
            _ => return Err(BrokerError::MessageNotScheduled { sequence }),
        }
        match record.scheduled_enqueue_at {
            Some(at) => Ok(at),
            None => Err(BrokerError::ScheduledEnqueueTimeMissing { sequence }),
        }
    }

    #[verifier::loop_isolation(false)]
    pub(crate) fn cancel_scheduled(
        &self,
        command: &Command,
        sequences: &[SequenceNumber],
        batch: &mut WriteBatch,
    ) -> (outcome: Result<CommandOutcome, BrokerError>)
        ensures
            machine::stepped(
                self.reliable(),
                outcome,
                final(batch).deep_view(),
                cancel_scheduled_step(
                    self.contents(),
                    command.deep_view(),
                    sequences@,
                    old(batch).deep_view(),
                ),
            ),
    {
        validate_cancellation(sequences)?;
        if command.entity.is_dead_letter_queue() {
            return Err(BrokerError::DeadLetterQueueIsReserved);
        }
        self.load_config(command)?;

        // Resolve the full request before adding any mutation. A stale or
        // already-activated sequence therefore cannot partially cancel the
        // messages that precede it.
        let ghost m = self.contents();
        let ghost c = command.deep_view();
        let ghost whole = due_times(m, c, sequences@, 0, Seq::empty());
        let mut due: Vec<Timestamp> = Vec::new();
        let mut i: usize = 0;
        proof {
            assert(due@ =~= Seq::<Timestamp>::empty());
        }
        while i < sequences.len()
            invariant
                i <= sequences@.len(),
                due@.len() == i,
                due_times(m, c, sequences@, i as int, due@) == whole,
            decreases sequences@.len() - i,
        {
            let at = self.due_time(command, sequences[i])?;
            due.push(at);
            i = i + 1;
        }
        let ghost before = batch.deep_view();
        let mut n: usize = 0;
        while n < sequences.len()
            invariant
                n <= sequences@.len(),
                due@.len() == sequences@.len(),
                batch.deep_view() == removed(c, sequences@, due@, n as int, before),
            decreases sequences@.len() - n,
        {
            batch.push_delete(
                keys::scheduled(&command.namespace, &command.entity, due[n], sequences[n]),
            );
            batch.push_delete(keys::message(&command.namespace, &command.entity, sequences[n]));
            n = n + 1;
        }
        let count: usize = sequences.len();
        let cancelled: u32 = if count as u64 <= u32::MAX as u64 {
            count as u32
        } else {
            u32::MAX
        };
        Ok(CommandOutcome::ScheduledCancelled { cancelled })
    }

    fn due_record(
        &self,
        command: &Command,
        enqueue_at: Timestamp,
        sequence: SequenceNumber,
    ) -> (record: Result<MessageRecord, BrokerError>)
        ensures
            error::agrees(
                self.reliable(),
                record,
                due_record(self.contents(), command.deep_view(), enqueue_at, sequence),
            ),
    {
        let record = match self.message(&command.namespace, &command.entity, sequence)? {
            Some(record) => record,
            None => return Err(BrokerError::DanglingIndexEntry { sequence }),
        };
        match record.state {
            MessageState::Scheduled => {},
            _ => return Err(BrokerError::MessageNotScheduled { sequence }),
        }
        match record.scheduled_enqueue_at {
            None => Err(BrokerError::ScheduledEnqueueTimeMissing { sequence }),
            Some(recorded) => {
                if recorded != enqueue_at {
                    return Err(BrokerError::MalformedIndexKey);
                }
                Ok(record)
            },
        }
    }

    #[verifier::loop_isolation(false)]
    pub(crate) fn activate_scheduled(&self, command: &Command, batch: &mut WriteBatch) -> (outcome:
        Result<CommandOutcome, BrokerError>)
        ensures
            machine::stepped(
                self.reliable(),
                outcome,
                final(batch).deep_view(),
                activate_scheduled_step(
                    self.contents(),
                    command.deep_view(),
                    old(batch).deep_view(),
                ),
            ),
    {
        self.load_config(command)?;
        let prefix = keys::scheduled_prefix(&command.namespace, &command.entity);
        let due = self.scan_prefix(prefix.as_slice(), TIMER_SCAN_LIMIT)?;
        let mut counters = self.load_counters(command)?;
        let ghost m = self.contents();
        let ghost c = command.deep_view();
        let ghost stored = counters;
        let ghost entries = storage::entries_view(due@);
        let ghost whole = activate_due(
            m,
            c,
            entries,
            (batch.deep_view(), counters.next_sequence, 0),
        );
        let mut activated: u32 = 0;
        let mut i: usize = 0;
        let mut more: bool = true;
        proof {
            assert(entries.skip(0) =~= entries);
        }
        while more && i < due.len()
            invariant
                i <= due@.len(),
                due@.len() <= TIMER_SCAN_LIMIT,
                activated == i,
                counters.next_lock_token == stored.next_lock_token,
                more ==> activate_due(
                    m,
                    c,
                    entries.skip(i as int),
                    (batch.deep_view(), counters.next_sequence, activated as nat),
                ) == whole,
                !more ==> whole == Ok::<ActivationState, ErrorView>(
                    (batch.deep_view(), counters.next_sequence, activated as nat),
                ),
            decreases
                    (due@.len() - i) + if more {
                        1int
                    } else {
                        0int
                    },
        {
            proof {
                assert(entries.skip(i as int).skip(1) =~= entries.skip(i + 1));
                assert(entries.skip(i as int)[0] == entries[i as int]);
            }
            let (enqueue_at, placeholder) = match keys::trailing_deadline(due[i].0.as_slice()) {
                Some(parts) => parts,
                None => return Err(BrokerError::MalformedIndexKey),
            };
            if enqueue_at.0 > command.issued_at.0 {
                more = false;
            } else {
                let record = self.due_record(command, enqueue_at, placeholder)?;
                let sequence = SequenceNumber::new(counters.next_sequence);
                counters.next_sequence = counters.next_sequence.saturating_add(1);
                activate(
                    command,
                    due[i].0.as_slice(),
                    placeholder,
                    record,
                    enqueue_at,
                    sequence,
                    batch,
                );
                activated = activated + 1;
                i = i + 1;
            }
        }
        if activated > 0 {
            batch.push_put(
                keys::queue_counters(&command.namespace, &command.entity),
                codec::store(&counters),
            );
        }
        Ok(CommandOutcome::ScheduledActivated { activated })
    }
}

} // verus!
