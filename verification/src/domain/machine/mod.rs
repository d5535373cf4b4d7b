//! The deterministic broker state machine.
//!
//! [`StateMachine::apply`] is the only entry point that mutates state. It reads
//! the records a command touches, folds every resulting change into a single
//! batch, and commits that batch atomically. A command therefore either takes
//! effect completely or not at all, and two replicas applying the same command
//! in the same order reach byte-identical state.
//!
//! Nothing here reads a clock, generates a random value, or performs I/O beyond
//! the injected store.

pub mod deferred;
pub mod delivery;
pub mod expiry;
pub mod duplicate;
pub mod forgetting;
pub mod founding;
pub mod history;
pub mod holding;
pub mod isolation;
pub mod lifecycle;
pub mod numbering;
pub mod orderly;
pub mod apply;
pub mod browsing;
pub mod catalog;
pub mod peek;
pub mod places;
pub mod progress;
pub mod publishing;
pub mod receiving;
pub mod refusals;
pub mod repeats;
pub mod retrieving;
pub mod rules;
pub mod topic;
pub mod scheduling;
pub mod send;
pub mod sending;
pub mod sessions;
pub mod settling;
pub mod shared;
pub mod sweeping;
pub mod waiting;

use vstd::prelude::*;

use crate::domain::codec;
use crate::domain::command::{CommandView, OutcomeView};
use crate::domain::error;
use crate::domain::error::{BrokerError, ErrorView};
use crate::domain::identifier;
use crate::domain::identifier::{EntityPath, NamespaceName, SessionId};
use crate::domain::keys;
use crate::domain::message;
use crate::domain::message::{MessageRecord, RecordView, SequenceNumber};
use crate::domain::queue;
use crate::domain::queue::{QueueConfig, QueueCounters};
use crate::domain::session;
use crate::domain::session::{SessionRecord, SessionView};
use crate::domain::time::Timestamp;
use crate::domain::wire::Wire;
use crate::storage;
use crate::storage::{Contents, OpView, StateStore};

verus! {

/// Ready entries a single receive may walk past while discarding expired
/// messages. Bounds the work one command performs so a large backlog of
/// expired messages cannot stall the group.
pub const MAX_RECEIVE_SCAN: usize = 32;

/// Sequence numbers accepted by one atomic deferred receive.
///
/// This matches the receiving-link in-flight bound and prevents one management
/// request from constructing an unbounded storage batch.
pub const MAX_DEFERRED_RECEIVE_BATCH: usize = 32;

/// Index entries a single timer sweep may process. A sweep that reports this
/// many may have more waiting, so the worker proposes another command.
pub const TIMER_SCAN_LIMIT: usize = 256;

/// Sessions one acceptance may examine before giving up. A queue whose first
/// sessions are all held reports none available rather than walking an
/// unbounded number of them, and the receiver retries.
pub const MAX_SESSION_SCAN: usize = 32;

/// Changes staged so far, or the rejection that ends the command.
pub type Staged = Result<Seq<OpView>, ErrorView>;

/// Changes and outcome of a command, or its rejection.
pub type Step = Result<(Seq<OpView>, OutcomeView), ErrorView>;

/// The changes of `changes` with the outcome `outcome`.
pub open spec fn with_outcome(changes: Staged, outcome: OutcomeView) -> Step {
    match changes {
        Ok(changes) => Ok((changes, outcome)),
        Err(error) => Err(error),
    }
}

/// `outcome` and the changes in `after` are what was decided, unless the store
/// failed.
pub open spec fn stepped<A: DeepView>(
    reliable: bool,
    outcome: Result<A, BrokerError>,
    after: Seq<OpView>,
    decided: Result<(Seq<OpView>, A::V), ErrorView>,
) -> bool {
    match outcome {
        Ok(value) => decided == Ok::<(Seq<OpView>, A::V), ErrorView>((after, value.deep_view())),
        Err(BrokerError::Storage(_)) => !reliable,
        Err(error) => decided == Err::<(Seq<OpView>, A::V), ErrorView>(error.deep_view()),
    }
}

/// The changes in `after` are what was decided, unless the store failed.
pub open spec fn staged(
    reliable: bool,
    done: Result<(), BrokerError>,
    after: Seq<OpView>,
    decided: Staged,
) -> bool {
    match done {
        Ok(_) => decided == Ok::<Seq<OpView>, ErrorView>(after),
        Err(BrokerError::Storage(_)) => !reliable,
        Err(error) => decided == Err::<Seq<OpView>, ErrorView>(error.deep_view()),
    }
}

// ---- what a store says -----------------------------------------------------

/// The value stored under `key`, when there is one.
pub open spec fn value_at<T: Wire>(m: Contents, key: Seq<u8>) -> Result<Option<T::V>, ErrorView> {
    if m.dom().contains(key) {
        match codec::decoded::<T>(m[key]) {
            Ok(value) => Ok(Some(value)),
            Err(error) => Err(ErrorView::Codec(error)),
        }
    } else {
        Ok(None)
    }
}

/// The message stored under `key`, when there is one.
pub open spec fn record_at(m: Contents, key: Seq<u8>) -> Result<Option<RecordView>, ErrorView> {
    if m.dom().contains(key) {
        match message::decoded_record(m[key]) {
            Ok(record) => Ok(Some(record)),
            Err(error) => Err(ErrorView::Codec(error)),
        }
    } else {
        Ok(None)
    }
}

/// The highest timestamp that was applied.
pub open spec fn applied_time(m: Contents) -> Result<Timestamp, ErrorView> {
    match value_at::<Timestamp>(m, keys::clock_key()) {
        Ok(Some(time)) => Ok(time),
        Ok(None) => Ok(Timestamp(0)),
        Err(error) => Err(error),
    }
}

pub open spec fn queue_at(m: Contents, namespace: Seq<char>, entity: Seq<char>) -> Result<
    Option<QueueConfig>,
    ErrorView,
> {
    value_at::<QueueConfig>(m, keys::queue_config_key(namespace, entity))
}

pub open spec fn message_at(
    m: Contents,
    namespace: Seq<char>,
    entity: Seq<char>,
    sequence: SequenceNumber,
) -> Result<Option<RecordView>, ErrorView> {
    record_at(m, keys::message_key(namespace, entity, sequence))
}

/// The settings of the queue a command names.
pub open spec fn config_of(m: Contents, c: CommandView) -> Result<QueueConfig, ErrorView> {
    match queue_at(m, c.namespace, c.entity) {
        Ok(Some(config)) => Ok(config),
        Ok(None) => Err(ErrorView::QueueNotFound),
        Err(error) => Err(error),
    }
}

/// The counters of the entity a command names.
pub open spec fn counters_of(m: Contents, c: CommandView) -> Result<QueueCounters, ErrorView> {
    match value_at::<QueueCounters>(m, keys::queue_counters_key(c.namespace, c.entity)) {
        Ok(Some(counters)) => Ok(counters),
        Ok(None) => Ok(queue::fresh_counters()),
        Err(error) => Err(error),
    }
}

/// The number that counters under a key give out next.
pub open spec fn next_number_at(m: Contents, key: Seq<u8>) -> u64 {
    match value_at::<QueueCounters>(m, key) {
        Ok(Some(counters)) => counters.next_sequence,
        Ok(None) => queue::fresh_counters().next_sequence,
        Err(_) => 0,
    }
}

/// The number that an entity gives out next.
pub open spec fn next_number(m: Contents, namespace: Seq<char>, entity: Seq<char>) -> u64 {
    next_number_at(m, keys::queue_counters_key(namespace, entity))
}

/// The lock token that counters under a key give out next.
pub open spec fn next_token_at(m: Contents, key: Seq<u8>) -> u64 {
    match value_at::<QueueCounters>(m, key) {
        Ok(Some(counters)) => counters.next_lock_token,
        Ok(None) => queue::fresh_counters().next_lock_token,
        Err(_) => 0,
    }
}

/// The lock token that an entity gives out next.
pub open spec fn next_token(m: Contents, namespace: Seq<char>, entity: Seq<char>) -> u64 {
    next_token_at(m, keys::queue_counters_key(namespace, entity))
}

/// The message `sequence` of the entity a command names.
pub open spec fn message_of(m: Contents, c: CommandView, sequence: SequenceNumber) -> Result<
    RecordView,
    ErrorView,
> {
    match message_at(m, c.namespace, c.entity, sequence) {
        Ok(Some(record)) => Ok(record),
        Ok(None) => Err(ErrorView::MessageNotFound { sequence }),
        Err(error) => Err(error),
    }
}

/// The session `id` of the entity a command names.
pub open spec fn session_of(m: Contents, c: CommandView, id: Seq<char>) -> Result<
    SessionView,
    ErrorView,
> {
    match value_at::<SessionRecord>(m, keys::session_key(c.namespace, c.entity, id)) {
        Ok(Some(record)) => Ok(record),
        Ok(None) => Ok(session::fresh_session()),
        Err(error) => Err(error),
    }
}

/// The sequence numbers at the ends of `keys`.
pub open spec fn sequences_of(entries: Seq<(Seq<u8>, Seq<u8>)>) -> Result<
    Seq<SequenceNumber>,
    ErrorView,
> {
    if exists|i: int| 0 <= i < entries.len() && (#[trigger] entries[i]).0.len() < 8 {
        Err(ErrorView::MalformedIndexKey)
    } else {
        Ok(Seq::new(entries.len(), |i: int| keys::last_sequence(entries[i].0)->Some_0))
    }
}

/// The sequence numbers in an index.
pub open spec fn index_of(m: Contents, prefix: Seq<u8>, limit: usize) -> Result<
    Seq<SequenceNumber>,
    ErrorView,
> {
    sequences_of(storage::scan(m, prefix, prefix, limit))
}

/// The path of the dead-letter queue of `entity`.
pub open spec fn shadow_of(entity: Seq<char>) -> Result<Seq<char>, ErrorView> {
    match identifier::internal_path(identifier::dead_letter_path(entity)) {
        Ok(path) => Ok(path),
        Err(error) => Err(ErrorView::Identifier(error)),
    }
}

/// The broker over a store.
#[derive(Debug)]
pub struct StateMachine<S> {
    pub(crate) store: S,
}

impl<S: StateStore> StateMachine<S> {
    /// What the store holds.
    pub closed spec fn contents(&self) -> Contents {
        self.store.contents()
    }

    /// The store never fails.
    pub closed spec fn reliable(&self) -> bool {
        self.store.reliable()
    }

    pub fn new(store: S) -> (machine: StateMachine<S>)
        ensures
            machine.contents() == store.contents(),
            machine.reliable() == store.reliable(),
    {
        StateMachine { store }
    }

    pub fn store(&self) -> (store: &S)
        ensures
            store.contents() == self.contents(),
            store.reliable() == self.reliable(),
    {
        &self.store
    }

    // ---- reads -------------------------------------------------------------

    pub(crate) fn lookup(&self, key: &[u8]) -> (value: Result<Option<Vec<u8>>, BrokerError>)
        ensures
            match value {
                Ok(Some(value)) => self.contents().dom().contains(key@)
                    && self.contents()[key@] == value@,
                Ok(None) => !self.contents().dom().contains(key@),
                Err(error) => error is Storage && !self.reliable(),
            },
    {
        match self.store.get(key) {
            Ok(value) => Ok(value),
            Err(error) => Err(BrokerError::Storage(error)),
        }
    }

    pub(crate) fn scan_prefix(&self, prefix: &[u8], limit: usize) -> (entries: Result<
        Vec<(Vec<u8>, Vec<u8>)>,
        BrokerError,
    >)
        ensures
            match entries {
                Ok(entries) => storage::entries_view(entries@) == storage::scan(
                    self.contents(),
                    prefix@,
                    prefix@,
                    limit,
                ),
                Err(error) => error is Storage && !self.reliable(),
            },
    {
        match self.store.scan_prefix(prefix, limit) {
            Ok(entries) => Ok(entries),
            Err(error) => Err(BrokerError::Storage(error)),
        }
    }

    pub(crate) fn scan_from(&self, prefix: &[u8], start: &[u8], limit: usize) -> (entries: Result<
        Vec<(Vec<u8>, Vec<u8>)>,
        BrokerError,
    >)
        ensures
            match entries {
                Ok(entries) => storage::entries_view(entries@) == storage::scan(
                    self.contents(),
                    prefix@,
                    start@,
                    limit,
                ),
                Err(error) => error is Storage && !self.reliable(),
            },
    {
        match self.store.scan_from(prefix, start, limit) {
            Ok(entries) => Ok(entries),
            Err(error) => Err(BrokerError::Storage(error)),
        }
    }

    pub(crate) fn read<T: Wire>(&self, key: &[u8]) -> (value: Result<Option<T>, BrokerError>)
        ensures
            error::agrees(self.reliable(), value, value_at::<T>(self.contents(), key@)),
    {
        match self.lookup(key)? {
            Some(bytes) => match codec::decode::<T>(bytes.as_slice()) {
                Ok(value) => Ok(Some(value)),
                Err(error) => Err(BrokerError::Codec(error)),
            },
            None => Ok(None),
        }
    }

    /// Reads the complete durable message representation.
    fn read_message(&self, key: &[u8]) -> (record: Result<Option<MessageRecord>, BrokerError>)
        ensures
            error::agrees(self.reliable(), record, record_at(self.contents(), key@)),
    {
        match self.lookup(key)? {
            Some(bytes) => match MessageRecord::decode(bytes.as_slice()) {
                Ok(record) => Ok(Some(record)),
                Err(error) => Err(BrokerError::Codec(error)),
            },
            None => Ok(None),
        }
    }

    pub fn last_applied_time(&self) -> (time: Result<Timestamp, BrokerError>)
        ensures
            error::agrees(self.reliable(), time, applied_time(self.contents())),
    {
        match self.read::<Timestamp>(keys::clock().as_slice())? {
            Some(time) => Ok(time),
            None => Ok(Timestamp::unix_epoch()),
        }
    }

    pub fn queue_config(&self, namespace: &NamespaceName, entity: &EntityPath) -> (config: Result<
        Option<QueueConfig>,
        BrokerError,
    >)
        ensures
            error::agrees(
                self.reliable(),
                config,
                queue_at(self.contents(), namespace.deep_view(), entity.deep_view()),
            ),
    {
        self.read(keys::queue_config(namespace, entity).as_slice())
    }

    pub fn message(
        &self,
        namespace: &NamespaceName,
        entity: &EntityPath,
        sequence: SequenceNumber,
    ) -> (record: Result<Option<MessageRecord>, BrokerError>)
        ensures
            error::agrees(
                self.reliable(),
                record,
                message_at(self.contents(), namespace.deep_view(), entity.deep_view(), sequence),
            ),
    {
        self.read_message(keys::message(namespace, entity, sequence).as_slice())
    }

    pub(crate) fn shadow(entity: &EntityPath) -> (path: Result<EntityPath, BrokerError>)
        ensures
            error::agrees(true, path, shadow_of(entity.deep_view())),
    {
        match entity.dead_letter_queue() {
            Ok(path) => Ok(path),
            Err(error) => Err(BrokerError::Identifier(error)),
        }
    }

    pub fn dead_lettered_message(
        &self,
        namespace: &NamespaceName,
        entity: &EntityPath,
        sequence: SequenceNumber,
    ) -> (record: Result<Option<MessageRecord>, BrokerError>)
        ensures
            error::agrees(
                self.reliable(),
                record,
                match shadow_of(entity.deep_view()) {
                    Ok(path) => message_at(
                        self.contents(),
                        namespace.deep_view(),
                        path,
                        sequence,
                    ),
                    Err(error) => Err(error),
                },
            ),
    {
        let shadow = Self::shadow(entity)?;
        self.message(namespace, &shadow, sequence)
    }

    /// The stored state of one session. `None` means the session has never been
    /// locked or given state, which is indistinguishable from one that was.
    pub fn session(
        &self,
        namespace: &NamespaceName,
        entity: &EntityPath,
        session_id: &SessionId,
    ) -> (record: Result<Option<SessionRecord>, BrokerError>)
        ensures
            error::agrees(
                self.reliable(),
                record,
                value_at::<SessionRecord>(
                    self.contents(),
                    keys::session_key(
                        namespace.deep_view(),
                        entity.deep_view(),
                        session_id.deep_view(),
                    ),
                ),
            ),
    {
        self.read(keys::session(namespace, entity, session_id).as_slice())
    }

    /// The opaque state stored alongside a session, empty when it has none.
    pub fn session_state(
        &self,
        namespace: &NamespaceName,
        entity: &EntityPath,
        session_id: &SessionId,
    ) -> (state: Result<Vec<u8>, BrokerError>)
        ensures
            error::agrees(
                self.reliable(),
                state,
                match value_at::<SessionRecord>(
                    self.contents(),
                    keys::session_key(
                        namespace.deep_view(),
                        entity.deep_view(),
                        session_id.deep_view(),
                    ),
                ) {
                    Ok(Some(record)) => Ok(record.state),
                    Ok(None) => Ok(Seq::empty()),
                    Err(error) => Err(error),
                },
            ),
    {
        match self.session(namespace, entity, session_id)? {
            Some(record) => {
                proof {
                    assert(record.state.deep_view() =~= record.state@);
                }
                Ok(record.state)
            },
            None => {
                let state: Vec<u8> = Vec::new();
                proof {
                    assert(state.deep_view() =~= Seq::<u8>::empty());
                }
                Ok(state)
            },
        }
    }

    pub fn session_ready_sequences(
        &self,
        namespace: &NamespaceName,
        entity: &EntityPath,
        session_id: &SessionId,
        limit: usize,
    ) -> (sequences: Result<Vec<SequenceNumber>, BrokerError>)
        ensures
            error::agrees(
                self.reliable(),
                sequences,
                index_of(
                    self.contents(),
                    keys::session_ready_prefix_key(
                        namespace.deep_view(),
                        entity.deep_view(),
                        session_id.deep_view(),
                    ),
                    limit,
                ),
            ),
    {
        self.index_sequences(
            keys::session_ready_prefix(namespace, entity, session_id).as_slice(),
            limit,
        )
    }

    pub fn ready_sequences(
        &self,
        namespace: &NamespaceName,
        entity: &EntityPath,
        limit: usize,
    ) -> (sequences: Result<Vec<SequenceNumber>, BrokerError>)
        ensures
            error::agrees(
                self.reliable(),
                sequences,
                index_of(
                    self.contents(),
                    keys::ready_prefix_key(namespace.deep_view(), entity.deep_view()),
                    limit,
                ),
            ),
    {
        self.index_sequences(keys::ready_prefix(namespace, entity).as_slice(), limit)
    }

    /// Deferred sequences remain entity-local but outside the ordinary ready
    /// index until explicitly requested.
    pub fn deferred_sequences(
        &self,
        namespace: &NamespaceName,
        entity: &EntityPath,
        limit: usize,
    ) -> (sequences: Result<Vec<SequenceNumber>, BrokerError>)
        ensures
            error::agrees(
                self.reliable(),
                sequences,
                index_of(
                    self.contents(),
                    keys::deferred_prefix_key(namespace.deep_view(), entity.deep_view()),
                    limit,
                ),
            ),
    {
        self.index_sequences(keys::deferred_prefix(namespace, entity).as_slice(), limit)
    }

    /// Sequences ready in the entity's dead-letter queue, in order.
    pub fn dead_lettered_sequences(
        &self,
        namespace: &NamespaceName,
        entity: &EntityPath,
        limit: usize,
    ) -> (sequences: Result<Vec<SequenceNumber>, BrokerError>)
        ensures
            error::agrees(
                self.reliable(),
                sequences,
                match shadow_of(entity.deep_view()) {
                    Ok(path) => index_of(
                        self.contents(),
                        keys::ready_prefix_key(namespace.deep_view(), path),
                        limit,
                    ),
                    Err(error) => Err(error),
                },
            ),
    {
        let shadow = Self::shadow(entity)?;
        self.ready_sequences(namespace, &shadow, limit)
    }

    #[verifier::loop_isolation(false)]
    fn index_sequences(&self, prefix: &[u8], limit: usize) -> (sequences: Result<
        Vec<SequenceNumber>,
        BrokerError,
    >)
        ensures
            error::agrees(self.reliable(), sequences, index_of(self.contents(), prefix@, limit)),
    {
        let entries = self.scan_prefix(prefix, limit)?;
        let ghost scanned = storage::scan(self.contents(), prefix@, prefix@, limit);
        let mut sequences: Vec<SequenceNumber> = Vec::new();
        let mut i: usize = 0;
        while i < entries.len()
            invariant
                i <= entries@.len(),
                sequences@.len() == i,
                forall|j: int|
                    0 <= j < i ==> (#[trigger] scanned[j]).0.len() >= 8 && sequences@[j]
                        == keys::last_sequence(scanned[j].0)->Some_0,
            decreases entries@.len() - i,
        {
            proof {
                assert(scanned[i as int] == (
                    entries@[i as int].0@,
                    entries@[i as int].1@,
                ));
            }
            match keys::trailing_sequence(entries[i].0.as_slice()) {
                Some(sequence) => {
                    sequences.push(sequence);
                },
                None => {
                    proof {
                        assert(scanned[i as int].0.len() < 8);
                    }
                    return Err(BrokerError::MalformedIndexKey);
                },
            }
            i = i + 1;
        }
        proof {
            assert(sequences.deep_view() =~= Seq::new(
                scanned.len(),
                |i: int| keys::last_sequence(scanned[i].0)->Some_0,
            ));
        }
        Ok(sequences)
    }
}

} // verus!
