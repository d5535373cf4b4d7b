//! Replicated commands and their outcomes.

use vstd::prelude::*;

use crate::domain::identifier::{EntityPath, NamespaceName, RuleName, SessionId, SubscriptionName};
use crate::domain::message::{
    Delivery, DeliveryView, EnvelopeView, LockToken, MessageEnvelope, ReceiveMode, SequenceNumber,
};
use crate::domain::queue::QueueConfig;
use crate::domain::rule::{RuleDefinition, RuleDefinitionView, RuleFilter, RuleFilterView};
use crate::domain::session::{AcceptedSession, AcceptedView, HoldView, SessionHold};
use crate::domain::time::Timestamp;
use crate::domain::topic::{SubscriptionConfig, TopicConfig};

verus! {

/// One message supplied to an atomic broker operation.
/// 
/// This is the reusable form of the fields on [`CommandKind::Send`]. Keeping
/// it independent of the command lets protocol adapters build a collection
/// without changing the singular send contract.
#[derive(Debug, PartialEq, Eq)]
pub struct MessageInput {
    pub message_id: String,
    pub body: Vec<u8>,
    /// Overrides the queue default when set.
    pub time_to_live_millis: Option<u64>,
    /// Required on a queue that requires sessions, and refused on one that
    /// does not.
    pub session_id: Option<SessionId>,
    /// Keeps the message outside the ready and expiry indexes until this
    /// replicated timestamp is reached by the timer worker.
    pub scheduled_enqueue_at: Option<Timestamp>,
    /// Lossless protocol-native message bytes. The broker keeps these opaque
    /// while using the normalized fields above for its decisions.
    pub envelope: Option<MessageEnvelope>,
}

pub struct InputView {
    pub message_id: Seq<char>,
    pub body: Seq<u8>,
    pub time_to_live_millis: Option<u64>,
    pub session_id: Option<Seq<char>>,
    pub scheduled_enqueue_at: Option<Timestamp>,
    pub envelope: Option<EnvelopeView>,
}

impl DeepView for MessageInput {
    type V = InputView;

    open spec fn deep_view(&self) -> InputView {
        InputView {
            message_id: self.message_id@,
            body: self.body@,
            time_to_live_millis: self.time_to_live_millis,
            session_id: self.session_id.deep_view(),
            scheduled_enqueue_at: self.scheduled_enqueue_at,
            envelope: self.envelope.deep_view(),
        }
    }
}

impl Default for MessageInput {
    fn default() -> (input: Self)
        ensures
            input.deep_view() == (InputView {
                message_id: Seq::empty(),
                body: Seq::empty(),
                time_to_live_millis: None,
                session_id: None,
                scheduled_enqueue_at: None,
                envelope: None,
            }),
    {
        MessageInput {
            message_id: String::new(),
            body: Vec::new(),
            time_to_live_millis: None,
            session_id: None,
            scheduled_enqueue_at: None,
            envelope: None,
        }
    }
}

#[derive(Debug, PartialEq, Eq)]
pub enum CommandKind {
    CreateQueue {
        config: QueueConfig,
    },
    CreateTopic {
        config: TopicConfig,
    },
    /// Creates one durable match-all subscription below `Command::entity`,
    /// which names its already-existing topic.
    CreateSubscription {
        name: SubscriptionName,
        config: SubscriptionConfig,
    },
    /// Adds a rule to the subscription `Command::entity`.
    CreateRule {
        name: RuleName,
        filter: RuleFilter,
    },
    /// Removes a rule of the subscription `Command::entity`.
    DeleteRule {
        name: RuleName,
    },
    /// Lists a page of the rules of the subscription `Command::entity`.
    ListRules {
        skip: u32,
        max_rules: u32,
    },
    Send {
        message_id: String,
        body: Vec<u8>,
        /// Overrides the queue default when set.
        time_to_live_millis: Option<u64>,
        /// Required on a queue that requires sessions, and refused on one that
        /// does not.
        session_id: Option<SessionId>,
        /// When set, persists a browseable scheduled placeholder instead of
        /// making the message immediately available to receivers.
        scheduled_enqueue_at: Option<Timestamp>,
        /// Lossless protocol-native message bytes. The broker keeps these opaque
        /// while using the normalized fields above for its decisions.
        envelope: Option<MessageEnvelope>,
    },
    /// Persists every message in one atomic storage commit.
    SendBatch {
        messages: Vec<MessageInput>,
    },
    /// Atomically removes scheduled placeholders. Every sequence must still
    /// name a scheduled message or the command writes nothing.
    CancelScheduled {
        sequences: Vec<SequenceNumber>,
    },
    /// Browses stored messages without acquiring a lock or changing their
    /// delivery state. `from_sequence` is inclusive; zero starts at the first
    /// available message.
    Peek {
        from_sequence: SequenceNumber,
        max_messages: u32,
        /// `None` browses every session on a session queue. A supplied hold
        /// must still be live and restricts the page to that session.
        session: Option<SessionHold>,
    },
    Receive {
        mode: ReceiveMode,
        /// Overrides the queue default when set.
        lock_duration_millis: Option<u64>,
        /// The session lock this receive draws from. Required on a queue that
        /// requires sessions, and refused on one that does not.
        session: Option<SessionHold>,
    },
    Complete {
        sequence: SequenceNumber,
        lock_token: LockToken,
    },
    Abandon {
        sequence: SequenceNumber,
        lock_token: LockToken,
        /// An updated protocol envelope after applying properties-to-modify.
        /// `None` keeps the envelope that arrived with the send.
        replacement_envelope: Option<MessageEnvelope>,
    },
    /// Removes a locked message from ordinary delivery until a receiver asks
    /// for its sequence number explicitly.
    Defer {
        sequence: SequenceNumber,
        lock_token: LockToken,
        /// An updated protocol envelope after applying properties-to-modify.
        /// `None` keeps the envelope that arrived with the send.
        replacement_envelope: Option<MessageEnvelope>,
    },
    /// Atomically retrieves explicitly deferred messages in caller order.
    ReceiveDeferred {
        sequences: Vec<SequenceNumber>,
        mode: ReceiveMode,
        /// Overrides the queue default when set.
        lock_duration_millis: Option<u64>,
        /// Required on a queue that requires sessions. Every requested message
        /// must belong to the held session.
        session: Option<SessionHold>,
    },
    DeadLetter {
        sequence: SequenceNumber,
        lock_token: LockToken,
        reason: String,
        description: String,
        /// An updated protocol envelope after applying properties-to-modify.
        /// `None` keeps the envelope that arrived with the send.
        replacement_envelope: Option<MessageEnvelope>,
    },
    /// Extends a message lock without changing its token.
    RenewLock {
        sequence: SequenceNumber,
        lock_token: LockToken,
        /// Overrides the queue default when set.
        lock_duration_millis: Option<u64>,
    },
    /// Takes exclusive ownership of a session.
    AcceptSession {
        /// `None` accepts the next session that has a ready message and is not
        /// already held.
        session_id: Option<SessionId>,
        /// Overrides the queue default when set.
        lock_duration_millis: Option<u64>,
    },
    /// Gives up a session so another receiver can take it. Messages already
    /// locked inside the session keep their own locks.
    ReleaseSession {
        session: SessionHold,
    },
    /// Extends a session lock without changing its token.
    RenewSessionLock {
        session: SessionHold,
        /// Overrides the queue default when set.
        lock_duration_millis: Option<u64>,
    },
    /// Replaces the opaque state stored alongside a session.
    SetSessionState {
        session: SessionHold,
        state: Vec<u8>,
    },
    /// Reads the opaque state stored alongside a session.
    GetSessionState {
        session: SessionHold,
    },
    /// Proposed by the leader's timer worker. Returns messages whose lock has
    /// elapsed, or dead-letters them once they reach the delivery limit.
    ExpireLocks,
    /// Proposed by the leader's timer worker. Dead-letters messages whose time
    /// to live has elapsed.
    ExpireMessages,
    /// Proposed by the leader's timer worker. Releases sessions whose lock has
    /// elapsed.
    ExpireSessionLocks,
    /// Proposed by the leader's timer worker. Re-enqueues due scheduled
    /// placeholders with new active sequence numbers.
    ActivateScheduled,
    /// Proposed by the leader's timer worker. Removes message identifiers whose
    /// duplicate-detection history window elapsed.
    ExpireDuplicateHistory,
}

pub enum KindView {
    CreateQueue { config: QueueConfig },
    CreateTopic { config: TopicConfig },
    CreateSubscription { name: Seq<char>, config: SubscriptionConfig },
    CreateRule { name: Seq<char>, filter: RuleFilterView },
    DeleteRule { name: Seq<char> },
    ListRules { skip: u32, max_rules: u32 },
    Send {
        message_id: Seq<char>,
        body: Seq<u8>,
        time_to_live_millis: Option<u64>,
        session_id: Option<Seq<char>>,
        scheduled_enqueue_at: Option<Timestamp>,
        envelope: Option<EnvelopeView>,
    },
    SendBatch { messages: Seq<InputView> },
    CancelScheduled { sequences: Seq<SequenceNumber> },
    Peek { from_sequence: SequenceNumber, max_messages: u32, session: Option<HoldView> },
    Receive { mode: ReceiveMode, lock_duration_millis: Option<u64>, session: Option<HoldView> },
    Complete { sequence: SequenceNumber, lock_token: LockToken },
    Abandon {
        sequence: SequenceNumber,
        lock_token: LockToken,
        replacement_envelope: Option<EnvelopeView>,
    },
    Defer {
        sequence: SequenceNumber,
        lock_token: LockToken,
        replacement_envelope: Option<EnvelopeView>,
    },
    ReceiveDeferred {
        sequences: Seq<SequenceNumber>,
        mode: ReceiveMode,
        lock_duration_millis: Option<u64>,
        session: Option<HoldView>,
    },
    DeadLetter {
        sequence: SequenceNumber,
        lock_token: LockToken,
        reason: Seq<char>,
        description: Seq<char>,
        replacement_envelope: Option<EnvelopeView>,
    },
    RenewLock {
        sequence: SequenceNumber,
        lock_token: LockToken,
        lock_duration_millis: Option<u64>,
    },
    AcceptSession { session_id: Option<Seq<char>>, lock_duration_millis: Option<u64> },
    ReleaseSession { session: HoldView },
    RenewSessionLock { session: HoldView, lock_duration_millis: Option<u64> },
    SetSessionState { session: HoldView, state: Seq<u8> },
    GetSessionState { session: HoldView },
    ExpireLocks,
    ExpireMessages,
    ExpireSessionLocks,
    ActivateScheduled,
    ExpireDuplicateHistory,
}

impl DeepView for CommandKind {
    type V = KindView;

    open spec fn deep_view(&self) -> KindView {
        match self {
            CommandKind::CreateQueue { config } => KindView::CreateQueue { config: *config },
            CommandKind::CreateTopic { config } => KindView::CreateTopic { config: *config },
            CommandKind::CreateSubscription { name, config } => KindView::CreateSubscription {
                name: name.deep_view(),
                config: *config,
            },
            CommandKind::CreateRule { name, filter } => KindView::CreateRule {
                name: name.deep_view(),
                filter: filter.deep_view(),
            },
            CommandKind::DeleteRule { name } => KindView::DeleteRule { name: name.deep_view() },
            CommandKind::ListRules { skip, max_rules } => KindView::ListRules {
                skip: *skip,
                max_rules: *max_rules,
            },
            CommandKind::Send {
                message_id,
                body,
                time_to_live_millis,
                session_id,
                scheduled_enqueue_at,
                envelope,
            } => KindView::Send {
                message_id: message_id@,
                body: body@,
                time_to_live_millis: *time_to_live_millis,
                session_id: session_id.deep_view(),
                scheduled_enqueue_at: *scheduled_enqueue_at,
                envelope: envelope.deep_view(),
            },
            CommandKind::SendBatch { messages } => KindView::SendBatch {
                messages: messages.deep_view(),
            },
            CommandKind::CancelScheduled { sequences } => KindView::CancelScheduled {
                sequences: sequences@,
            },
            CommandKind::Peek { from_sequence, max_messages, session } => KindView::Peek {
                from_sequence: *from_sequence,
                max_messages: *max_messages,
                session: session.deep_view(),
            },
            CommandKind::Receive { mode, lock_duration_millis, session } => KindView::Receive {
                mode: *mode,
                lock_duration_millis: *lock_duration_millis,
                session: session.deep_view(),
            },
            CommandKind::Complete { sequence, lock_token } => KindView::Complete {
                sequence: *sequence,
                lock_token: *lock_token,
            },
            CommandKind::Abandon {
                sequence,
                lock_token,
                replacement_envelope,
            } => KindView::Abandon {
                sequence: *sequence,
                lock_token: *lock_token,
                replacement_envelope: replacement_envelope.deep_view(),
            },
            CommandKind::Defer { sequence, lock_token, replacement_envelope } => KindView::Defer {
                sequence: *sequence,
                lock_token: *lock_token,
                replacement_envelope: replacement_envelope.deep_view(),
            },
            CommandKind::ReceiveDeferred {
                sequences,
                mode,
                lock_duration_millis,
                session,
            } => KindView::ReceiveDeferred {
                sequences: sequences@,
                mode: *mode,
                lock_duration_millis: *lock_duration_millis,
                session: session.deep_view(),
            },
            CommandKind::DeadLetter {
                sequence,
                lock_token,
                reason,
                description,
                replacement_envelope,
            } => KindView::DeadLetter {
                sequence: *sequence,
                lock_token: *lock_token,
                reason: reason@,
                description: description@,
                replacement_envelope: replacement_envelope.deep_view(),
            },
            CommandKind::RenewLock {
                sequence,
                lock_token,
                lock_duration_millis,
            } => KindView::RenewLock {
                sequence: *sequence,
                lock_token: *lock_token,
                lock_duration_millis: *lock_duration_millis,
            },
            CommandKind::AcceptSession {
                session_id,
                lock_duration_millis,
            } => KindView::AcceptSession {
                session_id: session_id.deep_view(),
                lock_duration_millis: *lock_duration_millis,
            },
            CommandKind::ReleaseSession { session } => KindView::ReleaseSession {
                session: session.deep_view(),
            },
            CommandKind::RenewSessionLock {
                session,
                lock_duration_millis,
            } => KindView::RenewSessionLock {
                session: session.deep_view(),
                lock_duration_millis: *lock_duration_millis,
            },
            CommandKind::SetSessionState { session, state } => KindView::SetSessionState {
                session: session.deep_view(),
                state: state@,
            },
            CommandKind::GetSessionState { session } => KindView::GetSessionState {
                session: session.deep_view(),
            },
            CommandKind::ExpireLocks => KindView::ExpireLocks,
            CommandKind::ExpireMessages => KindView::ExpireMessages,
            CommandKind::ExpireSessionLocks => KindView::ExpireSessionLocks,
            CommandKind::ActivateScheduled => KindView::ActivateScheduled,
            CommandKind::ExpireDuplicateHistory => KindView::ExpireDuplicateHistory,
        }
    }
}

/// One replicated instruction for the broker state machine.
/// 
/// The leader stamps `issued_at` before proposing. Followers apply the same
/// value, which is what keeps lock deadlines and expiry decisions identical
/// across replicas.
#[derive(Debug, PartialEq, Eq)]
pub struct Command {
    pub namespace: NamespaceName,
    pub entity: EntityPath,
    pub issued_at: Timestamp,
    pub kind: CommandKind,
}

pub struct CommandView {
    pub namespace: Seq<char>,
    pub entity: Seq<char>,
    pub issued_at: Timestamp,
    pub kind: KindView,
}

impl DeepView for Command {
    type V = CommandView;

    open spec fn deep_view(&self) -> CommandView {
        CommandView {
            namespace: self.namespace.deep_view(),
            entity: self.entity.deep_view(),
            issued_at: self.issued_at,
            kind: self.kind.deep_view(),
        }
    }
}

impl Command {
    pub fn new(
        namespace: NamespaceName,
        entity: EntityPath,
        issued_at: Timestamp,
        kind: CommandKind,
    ) -> (command: Command)
        ensures
            command.deep_view() == (CommandView {
                namespace: namespace.deep_view(),
                entity: entity.deep_view(),
                issued_at,
                kind: kind.deep_view(),
            }),
    {
        Command { namespace, entity, issued_at, kind }
    }
}

#[derive(Debug, PartialEq, Eq)]
pub enum CommandOutcome {
    QueueCreated,
    TopicCreated,
    SubscriptionCreated {
        entity: EntityPath,
    },
    RuleCreated,
    RuleDeleted,
    RulesListed {
        rules: Vec<RuleDefinition>,
    },
    Sent {
        sequence: SequenceNumber,
    },
    /// The send was accepted but its message identifier was still present in
    /// the entity's duplicate-detection history.
    DuplicateSuppressed {
        sequence: SequenceNumber,
    },
    BatchSent {
        sequences: Vec<SequenceNumber>,
        /// Children that were actually persisted; every input still receives a
        /// deterministic sequence slot in `sequences`.
        stored: u32,
    },
    /// Immediate topic fanout committed atomically. Every sequence is owned by
    /// the topic and stamped identically into that message's subscription
    /// copies. An empty subscription list is a successful publish to a topic
    /// that currently has no subscribers.
    Published {
        sequences: Vec<SequenceNumber>,
        subscriptions: Vec<EntityPath>,
    },
    ScheduledCancelled {
        cancelled: u32,
    },
    ScheduledActivated {
        activated: u32,
    },
    DuplicateHistoryExpired {
        removed: u32,
    },
    Peeked(Vec<Delivery>),
    /// `None` when the queue held no deliverable message.
    Received(Option<Delivery>),
    Completed,
    Abandoned {
        dead_lettered: bool,
    },
    Deferred,
    /// Live requested messages, in caller order. An expired deferred message
    /// is moved to the dead-letter queue and omitted.
    DeferredReceived(Vec<Delivery>),
    DeadLettered,
    LockRenewed {
        locked_until: Timestamp,
        /// Effective duration used to extend the lock, after applying any
        /// per-renewal override.
        lock_duration_millis: u64,
    },
    LocksExpired {
        returned_to_ready: u32,
        dead_lettered: u32,
    },
    MessagesExpired {
        dead_lettered: u32,
    },
    /// `None` when no session was available to accept.
    SessionAccepted(Option<AcceptedSession>),
    SessionReleased,
    SessionLockRenewed {
        locked_until: Timestamp,
    },
    SessionStateSet,
    SessionState(Vec<u8>),
    SessionLocksExpired {
        released: u32,
    },
}

pub enum OutcomeView {
    QueueCreated,
    TopicCreated,
    SubscriptionCreated { entity: Seq<char> },
    RuleCreated,
    RuleDeleted,
    RulesListed { rules: Seq<RuleDefinitionView> },
    Sent { sequence: SequenceNumber },
    DuplicateSuppressed { sequence: SequenceNumber },
    BatchSent { sequences: Seq<SequenceNumber>, stored: u32 },
    Published { sequences: Seq<SequenceNumber>, subscriptions: Seq<Seq<char>> },
    ScheduledCancelled { cancelled: u32 },
    ScheduledActivated { activated: u32 },
    DuplicateHistoryExpired { removed: u32 },
    Peeked(Seq<DeliveryView>),
    Received(Option<DeliveryView>),
    Completed,
    Abandoned { dead_lettered: bool },
    Deferred,
    DeferredReceived(Seq<DeliveryView>),
    DeadLettered,
    LockRenewed { locked_until: Timestamp, lock_duration_millis: u64 },
    LocksExpired { returned_to_ready: u32, dead_lettered: u32 },
    MessagesExpired { dead_lettered: u32 },
    SessionAccepted(Option<AcceptedView>),
    SessionReleased,
    SessionLockRenewed { locked_until: Timestamp },
    SessionStateSet,
    SessionState(Seq<u8>),
    SessionLocksExpired { released: u32 },
}

impl DeepView for CommandOutcome {
    type V = OutcomeView;

    open spec fn deep_view(&self) -> OutcomeView {
        match self {
            CommandOutcome::QueueCreated => OutcomeView::QueueCreated,
            CommandOutcome::TopicCreated => OutcomeView::TopicCreated,
            CommandOutcome::SubscriptionCreated { entity } => OutcomeView::SubscriptionCreated {
                entity: entity.deep_view(),
            },
            CommandOutcome::RuleCreated => OutcomeView::RuleCreated,
            CommandOutcome::RuleDeleted => OutcomeView::RuleDeleted,
            CommandOutcome::RulesListed { rules } => OutcomeView::RulesListed {
                rules: rules.deep_view(),
            },
            CommandOutcome::Sent { sequence } => OutcomeView::Sent { sequence: *sequence },
            CommandOutcome::DuplicateSuppressed { sequence } => OutcomeView::DuplicateSuppressed {
                sequence: *sequence,
            },
            CommandOutcome::BatchSent { sequences, stored } => OutcomeView::BatchSent {
                sequences: sequences@,
                stored: *stored,
            },
            CommandOutcome::Published { sequences, subscriptions } => OutcomeView::Published {
                sequences: sequences@,
                subscriptions: subscriptions.deep_view(),
            },
            CommandOutcome::ScheduledCancelled { cancelled } => OutcomeView::ScheduledCancelled {
                cancelled: *cancelled,
            },
            CommandOutcome::ScheduledActivated { activated } => OutcomeView::ScheduledActivated {
                activated: *activated,
            },
            CommandOutcome::DuplicateHistoryExpired {
                removed,
            } => OutcomeView::DuplicateHistoryExpired {
                removed: *removed,
            },
            CommandOutcome::Peeked(x) => OutcomeView::Peeked(x.deep_view()),
            CommandOutcome::Received(x) => OutcomeView::Received(x.deep_view()),
            CommandOutcome::Completed => OutcomeView::Completed,
            CommandOutcome::Abandoned { dead_lettered } => OutcomeView::Abandoned {
                dead_lettered: *dead_lettered,
            },
            CommandOutcome::Deferred => OutcomeView::Deferred,
            CommandOutcome::DeferredReceived(x) => OutcomeView::DeferredReceived(x.deep_view()),
            CommandOutcome::DeadLettered => OutcomeView::DeadLettered,
            CommandOutcome::LockRenewed {
                locked_until,
                lock_duration_millis,
            } => OutcomeView::LockRenewed {
                locked_until: *locked_until,
                lock_duration_millis: *lock_duration_millis,
            },
            CommandOutcome::LocksExpired {
                returned_to_ready,
                dead_lettered,
            } => OutcomeView::LocksExpired {
                returned_to_ready: *returned_to_ready,
                dead_lettered: *dead_lettered,
            },
            CommandOutcome::MessagesExpired { dead_lettered } => OutcomeView::MessagesExpired {
                dead_lettered: *dead_lettered,
            },
            CommandOutcome::SessionAccepted(x) => OutcomeView::SessionAccepted(x.deep_view()),
            CommandOutcome::SessionReleased => OutcomeView::SessionReleased,
            CommandOutcome::SessionLockRenewed { locked_until } => OutcomeView::SessionLockRenewed {
                locked_until: *locked_until,
            },
            CommandOutcome::SessionStateSet => OutcomeView::SessionStateSet,
            CommandOutcome::SessionState(x) => OutcomeView::SessionState(x@),
            CommandOutcome::SessionLocksExpired { released } => OutcomeView::SessionLocksExpired {
                released: *released,
            },
        }
    }
}

} // verus!
