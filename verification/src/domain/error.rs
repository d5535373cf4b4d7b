//! Rejections.

use vstd::prelude::*;

use crate::domain::codec::CodecError;
use crate::domain::identifier::{EntityPath, IdentifierError, RuleName, SessionId};
use crate::domain::message::SequenceNumber;
use crate::domain::queue::QueueConfigError;
use crate::domain::rule::RuleConfigError;
use crate::domain::time::Timestamp;
use crate::domain::topic::{SubscriptionConfigError, TopicConfigError};
use crate::storage::StorageError;

verus! {

/// Every rejection the state machine can produce.
/// 
/// These are decided from replicated state alone, so a follower replaying a
/// command rejects it exactly where the leader did. A failure of the store is
/// the one exception.
#[derive(Debug, PartialEq, Eq)]
pub enum BrokerError {
    QueueNotFound,
    QueueAlreadyExists,
    TopicNotFound,
    TopicAlreadyExists,
    /// An entity of another kind already exists at this path.
    EntityAlreadyExists,
    /// The entity path uses a reserved Service Bus suffix.
    EntityPathReserved,
    SubscriptionNotFound,
    SubscriptionAlreadyExists,
    SubscriptionLimitExceeded {
        maximum: usize,
    },
    /// A topic subscription index references a missing queue.
    DanglingSubscription {
        entity: EntityPath,
    },
    /// Messages cannot be sent directly to a topic subscription.
    SubscriptionSendNotAllowed,
    /// Messages cannot be received directly from a topic.
    TopicReceiveNotSupported,
    TopicSchedulingNotSupported,
    TopicSessionNotSupported,
    MessageNotFound {
        sequence: SequenceNumber,
    },
    MessageNotLocked {
        sequence: SequenceNumber,
    },
    LockTokenMismatch {
        sequence: SequenceNumber,
    },
    LockExpired {
        sequence: SequenceNumber,
        locked_until: Timestamp,
    },
    MessageTooLarge {
        body_bytes: usize,
        maximum_bytes: usize,
    },
    MessageIdTooLong {
        characters: usize,
        maximum: usize,
    },
    EmptyMessageBatch,
    MessageBatchSessionMismatch,
    EmptyPeek,
    EmptyDeferredReceive,
    DeferredReceiveBatchTooLarge {
        count: usize,
        maximum: usize,
    },
    DuplicateDeferredSequence {
        sequence: SequenceNumber,
    },
    MessageNotDeferred {
        sequence: SequenceNumber,
    },
    EmptyScheduledCancellation,
    DuplicateScheduledSequence {
        sequence: SequenceNumber,
    },
    MessageNotScheduled {
        sequence: SequenceNumber,
    },
    ScheduledEnqueueTimeMissing {
        sequence: SequenceNumber,
    },
    DeferredMessageSessionMismatch {
        sequence: SequenceNumber,
    },
    ClockRegression {
        last_applied: Timestamp,
        proposed: Timestamp,
    },
    QueueConfig(QueueConfigError),
    TopicConfig(TopicConfigError),
    SubscriptionConfig(SubscriptionConfigError),
    RuleConfig(RuleConfigError),
    RuleAlreadyExists {
        name: RuleName,
    },
    RuleNotFound {
        name: RuleName,
    },
    RuleLimitExceeded {
        maximum: usize,
    },
    EmptyRulePage,
    RulePageTooLarge {
        requested: u32,
        maximum: u32,
    },
    /// A dead-letter queue exists only as the shadow of its parent.
    DeadLetterQueueIsReserved,
    SessionRequired,
    SessionNotSupported,
    SessionAlreadyLocked {
        session_id: SessionId,
    },
    SessionLockNotHeld {
        session_id: SessionId,
    },
    SessionLockExpired {
        session_id: SessionId,
        locked_until: Timestamp,
    },
    DanglingIndexEntry {
        sequence: SequenceNumber,
    },
    MalformedIndexKey,
    Codec(CodecError),
    /// An identifier read back out of an index key failed to validate, which
    /// means the key was not one this build wrote.
    Identifier(IdentifierError),
    /// The store itself failed.
    Storage(StorageError),
}

/// A rejection, with the names in it by their text.
pub enum ErrorView {
    QueueNotFound,
    QueueAlreadyExists,
    TopicNotFound,
    TopicAlreadyExists,
    EntityAlreadyExists,
    EntityPathReserved,
    SubscriptionNotFound,
    SubscriptionAlreadyExists,
    SubscriptionLimitExceeded { maximum: usize },
    DanglingSubscription { entity: Seq<char> },
    SubscriptionSendNotAllowed,
    TopicReceiveNotSupported,
    TopicSchedulingNotSupported,
    TopicSessionNotSupported,
    MessageNotFound { sequence: SequenceNumber },
    MessageNotLocked { sequence: SequenceNumber },
    LockTokenMismatch { sequence: SequenceNumber },
    LockExpired { sequence: SequenceNumber, locked_until: Timestamp },
    MessageTooLarge { body_bytes: usize, maximum_bytes: usize },
    MessageIdTooLong { characters: usize, maximum: usize },
    EmptyMessageBatch,
    MessageBatchSessionMismatch,
    EmptyPeek,
    EmptyDeferredReceive,
    DeferredReceiveBatchTooLarge { count: usize, maximum: usize },
    DuplicateDeferredSequence { sequence: SequenceNumber },
    MessageNotDeferred { sequence: SequenceNumber },
    EmptyScheduledCancellation,
    DuplicateScheduledSequence { sequence: SequenceNumber },
    MessageNotScheduled { sequence: SequenceNumber },
    ScheduledEnqueueTimeMissing { sequence: SequenceNumber },
    DeferredMessageSessionMismatch { sequence: SequenceNumber },
    ClockRegression { last_applied: Timestamp, proposed: Timestamp },
    QueueConfig(QueueConfigError),
    TopicConfig(TopicConfigError),
    SubscriptionConfig(SubscriptionConfigError),
    RuleConfig(RuleConfigError),
    RuleAlreadyExists { name: Seq<char> },
    RuleNotFound { name: Seq<char> },
    RuleLimitExceeded { maximum: usize },
    EmptyRulePage,
    RulePageTooLarge { requested: u32, maximum: u32 },
    DeadLetterQueueIsReserved,
    SessionRequired,
    SessionNotSupported,
    SessionAlreadyLocked { session_id: Seq<char> },
    SessionLockNotHeld { session_id: Seq<char> },
    SessionLockExpired { session_id: Seq<char>, locked_until: Timestamp },
    DanglingIndexEntry { sequence: SequenceNumber },
    MalformedIndexKey,
    Codec(CodecError),
    Identifier(IdentifierError),
    Storage,
}

impl DeepView for BrokerError {
    type V = ErrorView;

    open spec fn deep_view(&self) -> ErrorView {
        match self {
            BrokerError::QueueNotFound => ErrorView::QueueNotFound,
            BrokerError::QueueAlreadyExists => ErrorView::QueueAlreadyExists,
            BrokerError::TopicNotFound => ErrorView::TopicNotFound,
            BrokerError::TopicAlreadyExists => ErrorView::TopicAlreadyExists,
            BrokerError::EntityAlreadyExists => ErrorView::EntityAlreadyExists,
            BrokerError::EntityPathReserved => ErrorView::EntityPathReserved,
            BrokerError::SubscriptionNotFound => ErrorView::SubscriptionNotFound,
            BrokerError::SubscriptionAlreadyExists => ErrorView::SubscriptionAlreadyExists,
            BrokerError::SubscriptionLimitExceeded {
                maximum,
            } => ErrorView::SubscriptionLimitExceeded {
                maximum: *maximum,
            },
            BrokerError::DanglingSubscription { entity } => ErrorView::DanglingSubscription {
                entity: entity.deep_view(),
            },
            BrokerError::SubscriptionSendNotAllowed => ErrorView::SubscriptionSendNotAllowed,
            BrokerError::TopicReceiveNotSupported => ErrorView::TopicReceiveNotSupported,
            BrokerError::TopicSchedulingNotSupported => ErrorView::TopicSchedulingNotSupported,
            BrokerError::TopicSessionNotSupported => ErrorView::TopicSessionNotSupported,
            BrokerError::MessageNotFound { sequence } => ErrorView::MessageNotFound {
                sequence: *sequence,
            },
            BrokerError::MessageNotLocked { sequence } => ErrorView::MessageNotLocked {
                sequence: *sequence,
            },
            BrokerError::LockTokenMismatch { sequence } => ErrorView::LockTokenMismatch {
                sequence: *sequence,
            },
            BrokerError::LockExpired { sequence, locked_until } => ErrorView::LockExpired {
                sequence: *sequence,
                locked_until: *locked_until,
            },
            BrokerError::MessageTooLarge {
                body_bytes,
                maximum_bytes,
            } => ErrorView::MessageTooLarge {
                body_bytes: *body_bytes,
                maximum_bytes: *maximum_bytes,
            },
            BrokerError::MessageIdTooLong { characters, maximum } => ErrorView::MessageIdTooLong {
                characters: *characters,
                maximum: *maximum,
            },
            BrokerError::EmptyMessageBatch => ErrorView::EmptyMessageBatch,
            BrokerError::MessageBatchSessionMismatch => ErrorView::MessageBatchSessionMismatch,
            BrokerError::EmptyPeek => ErrorView::EmptyPeek,
            BrokerError::EmptyDeferredReceive => ErrorView::EmptyDeferredReceive,
            BrokerError::DeferredReceiveBatchTooLarge {
                count,
                maximum,
            } => ErrorView::DeferredReceiveBatchTooLarge {
                count: *count,
                maximum: *maximum,
            },
            BrokerError::DuplicateDeferredSequence {
                sequence,
            } => ErrorView::DuplicateDeferredSequence {
                sequence: *sequence,
            },
            BrokerError::MessageNotDeferred { sequence } => ErrorView::MessageNotDeferred {
                sequence: *sequence,
            },
            BrokerError::EmptyScheduledCancellation => ErrorView::EmptyScheduledCancellation,
            BrokerError::DuplicateScheduledSequence {
                sequence,
            } => ErrorView::DuplicateScheduledSequence {
                sequence: *sequence,
            },
            BrokerError::MessageNotScheduled { sequence } => ErrorView::MessageNotScheduled {
                sequence: *sequence,
            },
            BrokerError::ScheduledEnqueueTimeMissing {
                sequence,
            } => ErrorView::ScheduledEnqueueTimeMissing {
                sequence: *sequence,
            },
            BrokerError::DeferredMessageSessionMismatch {
                sequence,
            } => ErrorView::DeferredMessageSessionMismatch {
                sequence: *sequence,
            },
            BrokerError::ClockRegression { last_applied, proposed } => ErrorView::ClockRegression {
                last_applied: *last_applied,
                proposed: *proposed,
            },
            BrokerError::QueueConfig(x) => ErrorView::QueueConfig(*x),
            BrokerError::TopicConfig(x) => ErrorView::TopicConfig(*x),
            BrokerError::SubscriptionConfig(x) => ErrorView::SubscriptionConfig(*x),
            BrokerError::RuleConfig(x) => ErrorView::RuleConfig(*x),
            BrokerError::RuleAlreadyExists { name } => ErrorView::RuleAlreadyExists {
                name: name.deep_view(),
            },
            BrokerError::RuleNotFound { name } => ErrorView::RuleNotFound {
                name: name.deep_view(),
            },
            BrokerError::RuleLimitExceeded { maximum } => ErrorView::RuleLimitExceeded {
                maximum: *maximum,
            },
            BrokerError::EmptyRulePage => ErrorView::EmptyRulePage,
            BrokerError::RulePageTooLarge { requested, maximum } => ErrorView::RulePageTooLarge {
                requested: *requested,
                maximum: *maximum,
            },
            BrokerError::DeadLetterQueueIsReserved => ErrorView::DeadLetterQueueIsReserved,
            BrokerError::SessionRequired => ErrorView::SessionRequired,
            BrokerError::SessionNotSupported => ErrorView::SessionNotSupported,
            BrokerError::SessionAlreadyLocked { session_id } => ErrorView::SessionAlreadyLocked {
                session_id: session_id.deep_view(),
            },
            BrokerError::SessionLockNotHeld { session_id } => ErrorView::SessionLockNotHeld {
                session_id: session_id.deep_view(),
            },
            BrokerError::SessionLockExpired {
                session_id,
                locked_until,
            } => ErrorView::SessionLockExpired {
                session_id: session_id.deep_view(),
                locked_until: *locked_until,
            },
            BrokerError::DanglingIndexEntry { sequence } => ErrorView::DanglingIndexEntry {
                sequence: *sequence,
            },
            BrokerError::MalformedIndexKey => ErrorView::MalformedIndexKey,
            BrokerError::Codec(x) => ErrorView::Codec(*x),
            BrokerError::Identifier(x) => ErrorView::Identifier(*x),
            BrokerError::Storage(_) => ErrorView::Storage,
        }
    }
}

/// `outcome` is what was decided, unless the store failed, which a reliable
/// store does not.
pub open spec fn agrees<A: DeepView>(
    reliable: bool,
    outcome: Result<A, BrokerError>,
    decided: Result<A::V, ErrorView>,
) -> bool {
    match outcome {
        Ok(value) => decided == Ok::<A::V, ErrorView>(value.deep_view()),
        Err(BrokerError::Storage(_)) => !reliable,
        Err(error) => decided == Err::<A::V, ErrorView>(error.deep_view()),
    }
}

} // verus!
