use switchyard::domain::command::{Command, CommandKind, CommandOutcome, MessageInput};
use switchyard::domain::error::BrokerError;
use switchyard::domain::identifier::{
    EntityPath, NamespaceName, RuleName, SessionId, SubscriptionName,
};
use switchyard::domain::machine::StateMachine;
use switchyard::domain::message::{
    DeadLetterReason, Delivery, DeliveryOrigin, LockToken, MessageEnvelope, MessageState,
    ReceiveMode, SequenceNumber,
};
use switchyard::domain::queue::QueueConfig;
use switchyard::domain::rule::{CorrelationFilter, FilterProperties, RuleFilter};
use switchyard::domain::session::SessionHold;
use switchyard::domain::time::Timestamp;
use switchyard::domain::topic::{SubscriptionConfig, TopicConfig};
use switchyard::storage::MemoryStore;

struct Broker {
    machine: StateMachine<MemoryStore>,
    namespace: &'static str,
    entity: String,
    now: u64,
}

fn namespace(name: &str) -> NamespaceName {
    NamespaceName::new(name.to_owned()).expect("a namespace")
}

fn path(name: &str) -> EntityPath {
    EntityPath::new(name.to_owned()).expect("a path")
}

fn session(id: &str) -> SessionId {
    SessionId::new(id.to_owned()).expect("a session")
}

fn numbered(n: u64) -> SequenceNumber {
    SequenceNumber::new(n)
}

fn send(id: &str, body: &[u8]) -> CommandKind {
    CommandKind::Send {
        message_id: id.to_owned(),
        body: body.to_vec(),
        time_to_live_millis: None,
        session_id: None,
        scheduled_enqueue_at: None,
        envelope: None,
    }
}

fn send_for(id: &str, millis: u64) -> CommandKind {
    CommandKind::Send {
        message_id: id.to_owned(),
        body: id.as_bytes().to_vec(),
        time_to_live_millis: Some(millis),
        session_id: None,
        scheduled_enqueue_at: None,
        envelope: None,
    }
}

fn send_at(id: &str, at: u64) -> CommandKind {
    CommandKind::Send {
        message_id: id.to_owned(),
        body: id.as_bytes().to_vec(),
        time_to_live_millis: None,
        session_id: None,
        scheduled_enqueue_at: Some(Timestamp::from_millis(at)),
        envelope: None,
    }
}

fn send_in(id: &str, session_id: &str) -> CommandKind {
    CommandKind::Send {
        message_id: id.to_owned(),
        body: id.as_bytes().to_vec(),
        time_to_live_millis: None,
        session_id: Some(session(session_id)),
        scheduled_enqueue_at: None,
        envelope: None,
    }
}

fn input(id: &str) -> MessageInput {
    MessageInput {
        message_id: id.to_owned(),
        body: id.as_bytes().to_vec(),
        time_to_live_millis: None,
        session_id: None,
        scheduled_enqueue_at: None,
        envelope: None,
    }
}

fn receive(mode: ReceiveMode) -> CommandKind {
    CommandKind::Receive { mode, lock_duration_millis: None, session: None }
}

impl Broker {
    fn new() -> Broker {
        Broker {
            machine: StateMachine::new(MemoryStore::new()),
            namespace: "ns",
            entity: String::from("orders"),
            now: 1_000,
        }
    }

    fn with(config: QueueConfig) -> Broker {
        let mut broker = Broker::new();
        assert_eq!(
            broker.tell(CommandKind::CreateQueue { config }),
            Ok(CommandOutcome::QueueCreated)
        );
        broker
    }

    fn queue() -> Broker {
        Broker::with(QueueConfig::default())
    }

    fn sessions() -> Broker {
        Broker::with(QueueConfig { requires_session: true, ..QueueConfig::default() })
    }

    fn tell(&mut self, kind: CommandKind) -> Result<CommandOutcome, BrokerError> {
        self.machine.apply(&Command::new(
            namespace(self.namespace),
            path(&self.entity),
            Timestamp::from_millis(self.now),
            kind,
        ))
    }

    fn sent(&mut self, kind: CommandKind) -> SequenceNumber {
        match self.tell(kind) {
            Ok(CommandOutcome::Sent { sequence }) => sequence,
            other => panic!("the message is stored: {other:?}"),
        }
    }

    fn received(&mut self, kind: CommandKind) -> Option<Delivery> {
        match self.tell(kind) {
            Ok(CommandOutcome::Received(delivery)) => delivery,
            other => panic!("a receive succeeds: {other:?}"),
        }
    }

    fn locked(&mut self) -> (SequenceNumber, LockToken) {
        let delivery = self.received(receive(ReceiveMode::PeekLock)).expect("a message is ready");
        (delivery.sequence, delivery.lock.expect("it is locked").token)
    }

    fn hold(&mut self, id: &str) -> SessionHold {
        match self.tell(CommandKind::AcceptSession {
            session_id: Some(session(id)),
            lock_duration_millis: None,
        }) {
            Ok(CommandOutcome::SessionAccepted(Some(accepted))) => accepted.hold(),
            other => panic!("the session is free: {other:?}"),
        }
    }

    fn state(&self, sequence: SequenceNumber) -> Option<MessageState> {
        self.machine
            .message(&namespace(self.namespace), &path(&self.entity), sequence)
            .expect("the store reads")
            .map(|record| record.state)
    }

    fn ready(&self) -> Vec<u64> {
        self.machine
            .ready_sequences(&namespace(self.namespace), &path(&self.entity), 100)
            .expect("the index reads")
            .into_iter()
            .map(SequenceNumber::as_u64)
            .collect()
    }

    fn dead(&self) -> Vec<u64> {
        self.machine
            .dead_lettered_sequences(&namespace(self.namespace), &path(&self.entity), 100)
            .expect("the index reads")
            .into_iter()
            .map(SequenceNumber::as_u64)
            .collect()
    }
}

// ---- entities --------------------------------------------------------------

#[test]
fn queues_are_created_once() {
    let mut broker = Broker::queue();
    assert_eq!(
        broker.tell(CommandKind::CreateQueue { config: QueueConfig::default() }),
        Err(BrokerError::QueueAlreadyExists)
    );
    assert_eq!(
        broker.tell(CommandKind::CreateTopic { config: TopicConfig::default() }),
        Err(BrokerError::EntityAlreadyExists)
    );
    let config = broker.machine.queue_config(&namespace("ns"), &path("orders"));
    assert_eq!(config, Ok(Some(QueueConfig::default())));
    let shadow = broker
        .machine
        .queue_config(&namespace("ns"), &path("orders/$deadletterqueue"))
        .expect("the store reads")
        .expect("the dead-letter queue exists");
    assert_eq!(shadow.max_delivery_count, u32::MAX);
    let queues = broker.machine.queues(10).expect("the catalog reads");
    assert_eq!(queues.len(), 2);
    let after = broker.machine.queues_after(Some(&queues[0]), 10).expect("the catalog reads");
    assert_eq!(after.len(), 1);
    assert_eq!(after[0].1.as_str(), "orders/$deadletterqueue");
}

#[test]
fn entities_that_do_not_exist_are_refused() {
    let mut broker = Broker::new();
    assert_eq!(broker.tell(send("a", b"x")), Err(BrokerError::QueueNotFound));
    assert_eq!(
        broker.tell(receive(ReceiveMode::PeekLock)),
        Err(BrokerError::QueueNotFound)
    );
    broker.entity = String::from("orders/$deadletterqueue");
    assert_eq!(
        broker.tell(CommandKind::CreateQueue { config: QueueConfig::default() }),
        Err(BrokerError::DeadLetterQueueIsReserved)
    );
    assert_eq!(
        broker.tell(CommandKind::CreateTopic { config: TopicConfig::default() }),
        Err(BrokerError::EntityPathReserved)
    );
}

// ---- the clock -------------------------------------------------------------

#[test]
fn the_clock_never_goes_back() {
    let mut broker = Broker::queue();
    assert_eq!(broker.machine.last_applied_time(), Ok(Timestamp::from_millis(1_000)));
    broker.now = 2_000;
    broker.sent(send("a", b"x"));
    broker.now = 1_999;
    assert_eq!(
        broker.tell(send("b", b"x")),
        Err(BrokerError::ClockRegression {
            last_applied: Timestamp::from_millis(2_000),
            proposed: Timestamp::from_millis(1_999),
        })
    );
    assert_eq!(broker.ready(), vec![1]);
    broker.now = 3_000;
    broker.tell(CommandKind::Peek {
        from_sequence: numbered(0),
        max_messages: 1,
        session: None,
    })
    .expect("a browse");
    assert_eq!(broker.machine.last_applied_time(), Ok(Timestamp::from_millis(2_000)));
}

// ---- sending and receiving -------------------------------------------------

#[test]
fn messages_are_received_in_order_and_completed() {
    let mut broker = Broker::queue();
    assert_eq!(broker.sent(send("a", b"one")), numbered(1));
    assert_eq!(broker.sent(send("b", b"two")), numbered(2));
    let first = broker.received(receive(ReceiveMode::PeekLock)).expect("the first");
    assert_eq!(first.body, b"one");
    assert_eq!(first.delivery_count, 1);
    let lock = first.lock.expect("it is locked");
    assert_eq!(lock.locked_until, Timestamp::from_millis(61_000));
    let second = broker.received(receive(ReceiveMode::ReceiveAndDelete)).expect("the second");
    assert_eq!(second.body, b"two");
    assert_eq!(second.lock, None);
    assert_eq!(broker.state(numbered(2)), None);
    assert_eq!(broker.received(receive(ReceiveMode::PeekLock)), None);
    assert_eq!(
        broker.state(numbered(1)),
        Some(MessageState::Locked {
            token: lock.token,
            locked_until: lock.locked_until,
            origin: DeliveryOrigin::Ready,
        })
    );
    let complete = |token| CommandKind::Complete { sequence: numbered(1), lock_token: token };
    assert_eq!(
        broker.tell(complete(LockToken::new(99))),
        Err(BrokerError::LockTokenMismatch { sequence: numbered(1) })
    );
    assert_eq!(broker.tell(complete(lock.token)), Ok(CommandOutcome::Completed));
    assert_eq!(
        broker.tell(complete(lock.token)),
        Err(BrokerError::MessageNotFound { sequence: numbered(1) })
    );
}

#[test]
fn locks_end_at_their_deadline_and_can_be_renewed() {
    let mut broker = Broker::queue();
    broker.sent(send("a", b"one"));
    let (sequence, token) = broker.locked();
    broker.now = 30_000;
    assert_eq!(
        broker.tell(CommandKind::RenewLock {
            sequence,
            lock_token: token,
            lock_duration_millis: Some(40_000),
        }),
        Ok(CommandOutcome::LockRenewed {
            locked_until: Timestamp::from_millis(70_000),
            lock_duration_millis: 40_000,
        })
    );
    broker.now = 70_000;
    assert_eq!(
        broker.tell(CommandKind::Complete { sequence, lock_token: token }),
        Err(BrokerError::LockExpired {
            sequence,
            locked_until: Timestamp::from_millis(70_000),
        })
    );
    assert_eq!(
        broker.tell(CommandKind::ExpireLocks),
        Ok(CommandOutcome::LocksExpired { returned_to_ready: 1, dead_lettered: 0 })
    );
    assert_eq!(broker.state(sequence), Some(MessageState::Ready));
    assert_eq!(
        broker.tell(CommandKind::Complete { sequence, lock_token: token }),
        Err(BrokerError::MessageNotLocked { sequence })
    );
}

#[test]
fn abandoned_messages_come_back_until_the_limit() {
    let mut broker =
        Broker::with(QueueConfig { max_delivery_count: 2, ..QueueConfig::default() });
    broker.sent(send("a", b"one"));
    for dead_lettered in [false, true] {
        let (sequence, lock_token) = broker.locked();
        assert_eq!(
            broker.tell(CommandKind::Abandon {
                sequence,
                lock_token,
                replacement_envelope: None,
            }),
            Ok(CommandOutcome::Abandoned { dead_lettered })
        );
    }
    assert_eq!(broker.ready(), Vec::<u64>::new());
    assert_eq!(broker.dead(), vec![1]);
    let dead = broker
        .machine
        .dead_lettered_message(&namespace("ns"), &path("orders"), numbered(1))
        .expect("the store reads")
        .expect("the message waits there");
    let info = dead.dead_letter_info().expect("it says why");
    assert_eq!(info.reason, DeadLetterReason::MaxDeliveryCountExceeded);
    assert_eq!(info.description, "the message reached its maximum delivery count");

    broker.entity = String::from("orders/$deadletterqueue");
    let delivery = broker.received(receive(ReceiveMode::ReceiveAndDelete)).expect("it drains");
    assert_eq!(delivery.body, b"one");
    assert_eq!(delivery.delivery_count, 3);
}

#[test]
fn dead_letters_carry_the_reason_that_was_given() {
    let mut broker = Broker::queue();
    broker.sent(send("a", b"one"));
    let (sequence, lock_token) = broker.locked();
    assert_eq!(
        broker.tell(CommandKind::DeadLetter {
            sequence,
            lock_token,
            reason: String::from("BadOrder"),
            description: String::from("no customer"),
            replacement_envelope: Some(MessageEnvelope::new(vec![9, 9])),
        }),
        Ok(CommandOutcome::DeadLettered)
    );
    broker.entity = String::from("orders/$deadletterqueue");
    let delivery = broker.received(receive(ReceiveMode::PeekLock)).expect("it drains");
    let info = delivery.dead_letter.expect("it says why");
    assert_eq!(info.reason, DeadLetterReason::Application(String::from("BadOrder")));
    assert_eq!(info.description, "no customer");
    assert_eq!(info.dead_lettered_at, Timestamp::from_millis(1_000));
    assert_eq!(delivery.envelope, Some(MessageEnvelope::new(vec![9, 9])));
}

#[test]
fn lifetimes_end_in_the_dead_letter_queue() {
    let mut broker = Broker::queue();
    broker.sent(send_for("a", 500));
    broker.sent(send_for("b", 5_000));
    broker.now = 1_500;
    let delivery = broker.received(receive(ReceiveMode::PeekLock)).expect("the one that lives");
    assert_eq!(delivery.message_id, "b");
    assert_eq!(broker.dead(), vec![1]);
    broker.now = 6_000;
    assert_eq!(
        broker.tell(CommandKind::ExpireMessages),
        Ok(CommandOutcome::MessagesExpired { dead_lettered: 0 })
    );
    broker.now = 61_500;
    assert_eq!(
        broker.tell(CommandKind::ExpireLocks),
        Ok(CommandOutcome::LocksExpired { returned_to_ready: 0, dead_lettered: 1 })
    );
    assert_eq!(broker.dead(), vec![1, 2]);
    broker.sent(send_for("c", 10));
    broker.now = 61_510;
    assert_eq!(
        broker.tell(CommandKind::ExpireMessages),
        Ok(CommandOutcome::MessagesExpired { dead_lettered: 1 })
    );
    assert_eq!(broker.dead(), vec![1, 2, 3]);
}

#[test]
fn faulty_sends_are_refused_whole() {
    let mut broker = Broker::with(QueueConfig { max_message_bytes: 4, ..QueueConfig::default() });
    assert_eq!(
        broker.tell(send("a", b"12345")),
        Err(BrokerError::MessageTooLarge { body_bytes: 5, maximum_bytes: 4 })
    );
    assert_eq!(
        broker.tell(CommandKind::SendBatch { messages: Vec::new() }),
        Err(BrokerError::EmptyMessageBatch)
    );
    let large = MessageInput { body: vec![0; 5], ..input("b") };
    assert_eq!(
        broker.tell(CommandKind::SendBatch { messages: vec![input("a"), large] }),
        Err(BrokerError::MessageTooLarge { body_bytes: 5, maximum_bytes: 4 })
    );
    assert_eq!(broker.ready(), Vec::<u64>::new());
    assert_eq!(broker.tell(send_in("a", "s")), Err(BrokerError::SessionNotSupported));
    assert_eq!(
        broker.tell(CommandKind::SendBatch { messages: vec![input("a"), input("b")] }),
        Ok(CommandOutcome::BatchSent {
            sequences: vec![numbered(1), numbered(2)],
            stored: 2,
        })
    );
    assert_eq!(broker.ready(), vec![1, 2]);
}

#[test]
fn messages_are_browsed_without_being_taken() {
    let mut broker = Broker::queue();
    broker.sent(send("a", b"one"));
    broker.sent(send_at("b", 9_000));
    broker.locked();
    let peek = |from, max_messages| CommandKind::Peek {
        from_sequence: numbered(from),
        max_messages,
        session: None,
    };
    let found = match broker.tell(peek(0, 10)) {
        Ok(CommandOutcome::Peeked(found)) => found,
        other => panic!("a browse succeeds: {other:?}"),
    };
    assert_eq!(found.len(), 2);
    assert_eq!(found[0].origin, DeliveryOrigin::Ready);
    assert_eq!(found[0].lock, None);
    assert_eq!(found[1].origin, DeliveryOrigin::Scheduled);
    assert_eq!(found[1].scheduled_enqueue_at, Some(Timestamp::from_millis(9_000)));
    assert!(matches!(broker.tell(peek(2, 1)),
        Ok(CommandOutcome::Peeked(found)) if found.len() == 1 && found[0].message_id == "b"));
    assert_eq!(broker.tell(peek(0, 0)), Err(BrokerError::EmptyPeek));
}

// ---- deferred and scheduled messages ---------------------------------------

#[test]
fn deferred_messages_are_found_by_their_number() {
    let mut broker = Broker::queue();
    broker.sent(send("a", b"one"));
    let (sequence, lock_token) = broker.locked();
    let ask = |sequences: Vec<SequenceNumber>, mode| CommandKind::ReceiveDeferred {
        sequences,
        mode,
        lock_duration_millis: None,
        session: None,
    };
    assert_eq!(
        broker.tell(ask(vec![sequence], ReceiveMode::PeekLock)),
        Err(BrokerError::MessageNotDeferred { sequence })
    );
    assert_eq!(
        broker.tell(CommandKind::Defer { sequence, lock_token, replacement_envelope: None }),
        Ok(CommandOutcome::Deferred)
    );
    assert_eq!(broker.state(sequence), Some(MessageState::Deferred));
    assert_eq!(broker.received(receive(ReceiveMode::PeekLock)), None);
    assert_eq!(
        broker.tell(ask(Vec::new(), ReceiveMode::PeekLock)),
        Err(BrokerError::EmptyDeferredReceive)
    );
    assert_eq!(
        broker.tell(ask(vec![sequence, sequence], ReceiveMode::PeekLock)),
        Err(BrokerError::DuplicateDeferredSequence { sequence })
    );
    let many = (0..33).map(numbered).collect();
    assert_eq!(
        broker.tell(ask(many, ReceiveMode::PeekLock)),
        Err(BrokerError::DeferredReceiveBatchTooLarge { count: 33, maximum: 32 })
    );
    let found = match broker.tell(ask(vec![sequence], ReceiveMode::PeekLock)) {
        Ok(CommandOutcome::DeferredReceived(found)) => found,
        other => panic!("the message is found: {other:?}"),
    };
    assert_eq!(found.len(), 1);
    assert_eq!(found[0].origin, DeliveryOrigin::Deferred);
    let lock_token = found[0].lock.expect("it is locked").token;
    assert_eq!(
        broker.tell(CommandKind::Abandon { sequence, lock_token, replacement_envelope: None }),
        Ok(CommandOutcome::Abandoned { dead_lettered: false })
    );
    assert_eq!(broker.state(sequence), Some(MessageState::Deferred));
    assert!(matches!(
        broker.tell(ask(vec![sequence], ReceiveMode::ReceiveAndDelete)),
        Ok(CommandOutcome::DeferredReceived(found)) if found[0].lock.is_none()
    ));
    assert_eq!(broker.state(sequence), None);
}

#[test]
fn scheduled_messages_wait_until_they_are_due() {
    let mut broker = Broker::queue();
    let placeholder = broker.sent(send_at("a", 5_000));
    assert_eq!(broker.ready(), Vec::<u64>::new());
    assert_eq!(broker.state(placeholder), Some(MessageState::Scheduled));
    broker.now = 4_999;
    assert_eq!(
        broker.tell(CommandKind::ActivateScheduled),
        Ok(CommandOutcome::ScheduledActivated { activated: 0 })
    );
    broker.now = 5_000;
    assert_eq!(
        broker.tell(CommandKind::ActivateScheduled),
        Ok(CommandOutcome::ScheduledActivated { activated: 1 })
    );
    assert_eq!(broker.ready(), vec![2]);
    assert_eq!(broker.state(placeholder), None);
    assert_eq!(
        broker.tell(CommandKind::CancelScheduled { sequences: vec![numbered(2)] }),
        Err(BrokerError::MessageNotScheduled { sequence: numbered(2) })
    );
}

#[test]
fn scheduled_messages_are_cancelled_together_or_not_at_all() {
    let mut broker = Broker::queue();
    let one = broker.sent(send_at("a", 5_000));
    let two = broker.sent(send_at("b", 6_000));
    let cancel = |sequences| CommandKind::CancelScheduled { sequences };
    assert_eq!(
        broker.tell(cancel(Vec::new())),
        Err(BrokerError::EmptyScheduledCancellation)
    );
    assert_eq!(
        broker.tell(cancel(vec![one, one])),
        Err(BrokerError::DuplicateScheduledSequence { sequence: one })
    );
    assert_eq!(
        broker.tell(cancel(vec![one, numbered(9)])),
        Err(BrokerError::MessageNotFound { sequence: numbered(9) })
    );
    assert_eq!(broker.state(one), Some(MessageState::Scheduled));
    assert_eq!(
        broker.tell(cancel(vec![two, one])),
        Ok(CommandOutcome::ScheduledCancelled { cancelled: 2 })
    );
    assert_eq!(broker.state(one), None);
    assert_eq!(broker.state(two), None);
}

// ---- duplicates ------------------------------------------------------------

#[test]
fn remembered_identifiers_are_suppressed() {
    let mut broker = Broker::with(QueueConfig {
        requires_duplicate_detection: true,
        duplicate_detection_history_millis: 20_000,
        ..QueueConfig::default()
    });
    broker.sent(send("a", b"one"));
    assert_eq!(
        broker.tell(send("a", b"two")),
        Ok(CommandOutcome::DuplicateSuppressed { sequence: numbered(2) })
    );
    assert_eq!(broker.ready(), vec![1]);
    assert_eq!(
        broker.tell(CommandKind::SendBatch {
            messages: vec![input("a"), input("b"), input("b"), input("")],
        }),
        Ok(CommandOutcome::BatchSent {
            sequences: vec![numbered(3), numbered(4), numbered(5), numbered(6)],
            stored: 2,
        })
    );
    assert_eq!(broker.ready(), vec![1, 4, 6]);
    assert_eq!(
        broker.machine.duplicate_history_deadline(&namespace("ns"), &path("orders"), "a"),
        Ok(Some(Timestamp::from_millis(21_000)))
    );
    broker.now = 21_000;
    assert_eq!(
        broker.tell(CommandKind::ExpireDuplicateHistory),
        Ok(CommandOutcome::DuplicateHistoryExpired { removed: 2 })
    );
    assert_eq!(broker.sent(send("a", b"three")), numbered(7));
}

// ---- sessions --------------------------------------------------------------

#[test]
fn sessions_are_held_by_one_receiver() {
    let mut broker = Broker::sessions();
    assert_eq!(broker.tell(send("a", b"x")), Err(BrokerError::SessionRequired));
    broker.sent(send_in("a", "left"));
    broker.sent(send_in("b", "right"));
    broker.sent(send_in("c", "left"));
    let hold = broker.hold("left");
    assert_eq!(
        broker.tell(CommandKind::AcceptSession {
            session_id: Some(session("left")),
            lock_duration_millis: None,
        }),
        Err(BrokerError::SessionAlreadyLocked { session_id: session("left") })
    );
    let next = broker.tell(CommandKind::AcceptSession {
        session_id: None,
        lock_duration_millis: None,
    });
    assert!(matches!(next, Ok(CommandOutcome::SessionAccepted(Some(accepted)))
        if accepted.session_id == session("right")));
    assert_eq!(
        broker.tell(CommandKind::AcceptSession { session_id: None, lock_duration_millis: None }),
        Ok(CommandOutcome::SessionAccepted(None))
    );
    let from = |hold: &SessionHold| CommandKind::Receive {
        mode: ReceiveMode::ReceiveAndDelete,
        lock_duration_millis: None,
        session: Some(SessionHold::new(session(hold.session_id.as_str()), hold.token)),
    };
    assert_eq!(broker.received(from(&hold)).map(|d| d.message_id), Some(String::from("a")));
    assert_eq!(broker.received(from(&hold)).map(|d| d.message_id), Some(String::from("c")));
    assert_eq!(broker.received(from(&hold)), None);
    assert_eq!(
        broker.tell(receive(ReceiveMode::PeekLock)),
        Err(BrokerError::SessionRequired)
    );
    let wrong = SessionHold::new(session("left"), LockToken::new(77));
    assert_eq!(
        broker.tell(from(&wrong)),
        Err(BrokerError::SessionLockNotHeld { session_id: session("left") })
    );
    broker.now = 61_000;
    assert_eq!(
        broker.tell(from(&hold)),
        Err(BrokerError::SessionLockExpired {
            session_id: session("left"),
            locked_until: Timestamp::from_millis(61_000),
        })
    );
    assert_eq!(
        broker.tell(CommandKind::ExpireSessionLocks),
        Ok(CommandOutcome::SessionLocksExpired { released: 2 })
    );
}

#[test]
fn session_state_stays_when_a_session_is_released() {
    let mut broker = Broker::sessions();
    let hold = broker.hold("s");
    let token = hold.token;
    let again = || SessionHold::new(session("s"), token);
    assert_eq!(
        broker.tell(CommandKind::SetSessionState { session: again(), state: vec![1, 2] }),
        Ok(CommandOutcome::SessionStateSet)
    );
    assert_eq!(
        broker.tell(CommandKind::GetSessionState { session: again() }),
        Ok(CommandOutcome::SessionState(vec![1, 2]))
    );
    broker.now = 10_000;
    assert_eq!(
        broker.tell(CommandKind::RenewSessionLock {
            session: again(),
            lock_duration_millis: None,
        }),
        Ok(CommandOutcome::SessionLockRenewed { locked_until: Timestamp::from_millis(70_000) })
    );
    assert_eq!(
        broker.tell(CommandKind::ReleaseSession { session: again() }),
        Ok(CommandOutcome::SessionReleased)
    );
    assert_eq!(
        broker.machine.session_state(&namespace("ns"), &path("orders"), &session("s")),
        Ok(vec![1, 2])
    );
    assert_eq!(
        broker.tell(CommandKind::GetSessionState { session: again() }),
        Err(BrokerError::SessionLockNotHeld { session_id: session("s") })
    );
    let held = broker.hold("s");
    assert_ne!(held.token, token);
}

#[test]
fn a_batch_belongs_to_one_session() {
    let mut broker = Broker::sessions();
    let one = MessageInput { session_id: Some(session("a")), ..input("1") };
    let two = MessageInput { session_id: Some(session("b")), ..input("2") };
    assert_eq!(
        broker.tell(CommandKind::SendBatch { messages: vec![one, two] }),
        Err(BrokerError::MessageBatchSessionMismatch)
    );
}

// ---- topics ----------------------------------------------------------------

fn subscribe(name: &str) -> CommandKind {
    CommandKind::CreateSubscription {
        name: SubscriptionName::new(name.to_owned()).expect("a subscription name"),
        config: SubscriptionConfig::default(),
    }
}

fn rule(name: &str) -> RuleName {
    RuleName::new(name.to_owned()).expect("a rule name")
}

fn subject(text: &str) -> FilterProperties {
    FilterProperties { subject: Some(text.to_owned()), ..FilterProperties::default() }
}

#[test]
fn publications_reach_the_subscriptions_that_select_them() {
    let mut broker = Broker::new();
    assert_eq!(
        broker.tell(CommandKind::CreateTopic { config: TopicConfig::default() }),
        Ok(CommandOutcome::TopicCreated)
    );
    assert!(matches!(
        broker.tell(send("early", b"x")),
        Ok(CommandOutcome::Published { sequences, subscriptions })
            if sequences == vec![numbered(1)] && subscriptions.is_empty()
    ));
    for name in ["all", "paid"] {
        assert!(matches!(
            broker.tell(subscribe(name)),
            Ok(CommandOutcome::SubscriptionCreated { .. })
        ));
    }
    assert_eq!(broker.tell(subscribe("all")), Err(BrokerError::SubscriptionAlreadyExists));
    let paid = broker.machine.subscriptions(&namespace("ns"), &path("orders"), 10);
    let paid = paid.expect("the catalog reads").pop().expect("two subscriptions");
    assert_eq!(paid.as_str(), "orders/subscriptions/paid");

    broker.entity = String::from(paid.as_str());
    assert_eq!(
        broker.tell(CommandKind::DeleteRule { name: rule("$default") }),
        Ok(CommandOutcome::RuleDeleted)
    );
    let filter = CorrelationFilter {
        subject: Some(String::from("paid")),
        ..CorrelationFilter::default()
    };
    assert_eq!(
        broker.tell(CommandKind::CreateRule {
            name: rule("by-subject"),
            filter: RuleFilter::Correlation(filter),
        }),
        Ok(CommandOutcome::RuleCreated)
    );
    assert_eq!(
        broker.tell(CommandKind::CreateRule { name: rule("by-subject"), filter: RuleFilter::True }),
        Err(BrokerError::RuleAlreadyExists { name: rule("by-subject") })
    );
    assert_eq!(
        broker.tell(CommandKind::DeleteRule { name: rule("none") }),
        Err(BrokerError::RuleNotFound { name: rule("none") })
    );
    assert!(matches!(
        broker.tell(CommandKind::ListRules { skip: 0, max_rules: 10 }),
        Ok(CommandOutcome::RulesListed { rules }) if rules.len() == 1
    ));
    assert_eq!(
        broker.tell(CommandKind::ListRules { skip: 0, max_rules: 0 }),
        Err(BrokerError::EmptyRulePage)
    );
    assert_eq!(
        broker.tell(CommandKind::ListRules { skip: 0, max_rules: 101 }),
        Err(BrokerError::RulePageTooLarge { requested: 101, maximum: 100 })
    );
    assert_eq!(broker.tell(send("x", b"x")), Err(BrokerError::SubscriptionSendNotAllowed));

    broker.entity = String::from("orders");
    let publish = |id: &str, topic: &str| CommandKind::Send {
        message_id: id.to_owned(),
        body: id.as_bytes().to_vec(),
        time_to_live_millis: None,
        session_id: None,
        scheduled_enqueue_at: None,
        envelope: Some(MessageEnvelope::with_filter_properties(vec![1], subject(topic))),
    };
    assert!(matches!(
        broker.tell(publish("one", "paid")),
        Ok(CommandOutcome::Published { subscriptions, .. }) if subscriptions.len() == 2
    ));
    assert!(matches!(
        broker.tell(publish("two", "open")),
        Ok(CommandOutcome::Published { sequences, subscriptions })
            if sequences == vec![numbered(3)] && subscriptions.len() == 1
    ));
    assert_eq!(
        broker.tell(receive(ReceiveMode::PeekLock)),
        Err(BrokerError::TopicReceiveNotSupported)
    );
    assert_eq!(broker.tell(send_in("s", "s")), Err(BrokerError::TopicSessionNotSupported));
    assert_eq!(broker.tell(send_at("s", 9)), Err(BrokerError::TopicSchedulingNotSupported));
    let long = "i".repeat(129);
    assert_eq!(
        broker.tell(send(&long, b"x")),
        Err(BrokerError::MessageIdTooLong { characters: 129, maximum: 128 })
    );
    broker.entity = String::from("orders/subscriptions/paid");
    assert_eq!(broker.ready(), vec![2]);
    broker.entity = String::from("orders/subscriptions/all");
    assert_eq!(broker.ready(), vec![2, 3]);
    broker.entity = String::from("other");
    assert_eq!(broker.tell(subscribe("a")), Err(BrokerError::TopicNotFound));
    assert_eq!(
        broker.tell(CommandKind::ListRules { skip: 0, max_rules: 1 }),
        Err(BrokerError::SubscriptionNotFound)
    );
}

#[test]
fn published_batches_reach_the_subscriptions_that_select_them() {
    let mut broker = Broker::new();
    broker
        .tell(CommandKind::CreateTopic { config: TopicConfig::default() })
        .expect("the topic is created");
    for name in ["all", "paid"] {
        broker.tell(subscribe(name)).expect("the subscription is created");
    }
    broker.entity = String::from("orders/subscriptions/paid");
    broker
        .tell(CommandKind::DeleteRule { name: rule("$default") })
        .expect("the rule is deleted");
    let filter = CorrelationFilter {
        subject: Some(String::from("paid")),
        ..CorrelationFilter::default()
    };
    broker
        .tell(CommandKind::CreateRule {
            name: rule("by-subject"),
            filter: RuleFilter::Correlation(filter),
        })
        .expect("the rule is created");
    broker.entity = String::from("orders");
    let about = |id: &str, topic: &str| MessageInput {
        envelope: Some(MessageEnvelope::with_filter_properties(vec![1], subject(topic))),
        ..input(id)
    };
    let messages = vec![about("a", "open"), about("b", "paid"), about("c", "open"), about("d", "paid")];
    assert!(matches!(
        broker.tell(CommandKind::SendBatch { messages }),
        Ok(CommandOutcome::Published { sequences, subscriptions })
            if sequences == (1..=4).map(numbered).collect::<Vec<SequenceNumber>>()
                && subscriptions.len() == 2
    ));
    broker.entity = String::from("orders/subscriptions/paid");
    assert_eq!(broker.ready(), vec![2, 4]);
    broker.entity = String::from("orders/subscriptions/all");
    assert_eq!(broker.ready(), vec![1, 2, 3, 4]);
}

#[test]
fn only_a_subscription_refuses_sends_under_a_path_below_a_topic() {
    let mut broker = Broker::new();
    broker.entity = String::from("orders/subscriptions/audit");
    assert_eq!(broker.tell(send("a", b"a")), Err(BrokerError::QueueNotFound));
    assert_eq!(
        broker.tell(CommandKind::CreateQueue { config: QueueConfig::default() }),
        Ok(CommandOutcome::QueueCreated)
    );
    assert_eq!(broker.sent(send("a", b"a")), numbered(1));
    broker.entity = String::from("orders");
    assert_eq!(
        broker.tell(CommandKind::CreateTopic { config: TopicConfig::default() }),
        Ok(CommandOutcome::TopicCreated)
    );
    assert_eq!(broker.tell(subscribe("audit")), Err(BrokerError::EntityAlreadyExists));
    assert!(matches!(
        broker.tell(subscribe("all")),
        Ok(CommandOutcome::SubscriptionCreated { .. })
    ));
    broker.entity = String::from("orders/subscriptions/audit");
    assert_eq!(
        broker.tell(CommandKind::SendBatch { messages: vec![input("b"), input("c")] }),
        Ok(CommandOutcome::BatchSent { sequences: vec![numbered(2), numbered(3)], stored: 2 })
    );
    assert_eq!(broker.ready(), vec![1, 2, 3]);
    broker.entity = String::from("orders/subscriptions/all");
    assert_eq!(broker.tell(send("d", b"d")), Err(BrokerError::SubscriptionSendNotAllowed));
    assert_eq!(
        broker.tell(CommandKind::SendBatch { messages: vec![input("d")] }),
        Err(BrokerError::SubscriptionSendNotAllowed)
    );
    broker.entity = String::from("orders/Subscriptions/all");
    assert_eq!(broker.tell(send("d", b"d")), Err(BrokerError::QueueNotFound));
    broker.entity = String::from("orders/subscriptions/all");
    broker.namespace = "ns2";
    assert_eq!(broker.tell(send("d", b"d")), Err(BrokerError::QueueNotFound));
    broker.namespace = "ns";
    broker.entity = String::from("orders");
    assert!(matches!(
        broker.tell(send("e", b"e")),
        Ok(CommandOutcome::Published { sequences, subscriptions })
            if sequences == vec![numbered(1)]
                && subscriptions == vec![path("orders/subscriptions/all")]
    ));
    broker.entity = String::from("orders/subscriptions/audit");
    assert_eq!(broker.ready(), vec![1, 2, 3]);
}

#[test]
fn batches_are_stored_under_the_numbers_they_take() {
    let mut broker = Broker::with(QueueConfig {
        requires_duplicate_detection: true,
        ..QueueConfig::default()
    });
    broker.sent(send("a", b"a"));
    assert_eq!(
        broker.tell(CommandKind::SendBatch {
            messages: vec![input("b"), input("a"), input("c"), input("b")],
        }),
        Ok(CommandOutcome::BatchSent { sequences: (2..=5).map(numbered).collect(), stored: 2 })
    );
    assert_eq!(broker.ready(), vec![1, 2, 4]);
}

// ---- namespaces and replicas -----------------------------------------------

#[test]
fn namespaces_do_not_reach_each_other() {
    let mut broker = Broker::queue();
    broker.sent(send("a", b"one"));
    broker.namespace = "ns2";
    assert_eq!(broker.tell(send("b", b"two")), Err(BrokerError::QueueNotFound));
    broker
        .tell(CommandKind::CreateQueue { config: QueueConfig::default() })
        .expect("another queue of the name");
    assert_eq!(broker.sent(send("b", b"two")), numbered(1));
    broker.received(receive(ReceiveMode::ReceiveAndDelete)).expect("its own message");
    assert_eq!(broker.ready(), Vec::<u64>::new());
    broker.namespace = "ns";
    assert_eq!(broker.ready(), vec![1]);
}

#[test]
fn replicas_agree() {
    let run = || {
        let mut broker = Broker::queue();
        let mut outcomes = Vec::new();
        for (at, id) in [(2_000, "a"), (2_000, "b"), (3_000, "c")] {
            broker.now = at;
            outcomes.push(broker.tell(send(id, id.as_bytes())));
        }
        outcomes.push(broker.tell(receive(ReceiveMode::PeekLock)));
        broker.now = 90_000;
        outcomes.push(broker.tell(CommandKind::ExpireLocks));
        (outcomes, broker.machine)
    };
    let (first, one) = run();
    let (second, other) = run();
    assert_eq!(first, second);
    assert_eq!(one.store(), other.store());
}

// ---- what holds at any time ------------------------------------------------

#[test]
fn a_number_stands_for_one_message() {
    let mut broker = Broker::queue();
    for id in ["a", "b", "c"] {
        broker.sent(send(id, id.as_bytes()));
    }
    let (first, lock_token) = broker.locked();
    assert_eq!(
        broker.tell(CommandKind::DeadLetter {
            sequence: first,
            lock_token,
            reason: String::from("r"),
            description: String::from("d"),
            replacement_envelope: None,
        }),
        Ok(CommandOutcome::DeadLettered)
    );
    let (second, lock_token) = broker.locked();
    assert_eq!(
        broker.tell(CommandKind::Complete { sequence: second, lock_token }),
        Ok(CommandOutcome::Completed)
    );
    assert_eq!((broker.ready(), broker.dead()), (vec![3], vec![1]));
    assert_eq!(broker.state(first), None);
    assert_eq!(broker.sent(send("d", b"four")), numbered(4));
    assert_eq!(broker.ready(), vec![3, 4]);
}

#[test]
fn messages_stand_in_the_index_of_their_state() {
    let mut broker = Broker::queue();
    broker.sent(send("a", b"one"));
    broker.sent(send("b", b"two"));
    assert_eq!(broker.ready(), vec![1, 2]);
    let (sequence, lock_token) = broker.locked();
    assert_eq!(broker.ready(), vec![2]);
    assert!(matches!(broker.state(sequence), Some(MessageState::Locked { .. })));
    assert_eq!(
        broker.tell(CommandKind::Defer { sequence, lock_token, replacement_envelope: None }),
        Ok(CommandOutcome::Deferred)
    );
    let deferred = broker.machine.deferred_sequences(&namespace("ns"), &path("orders"), 10);
    assert_eq!(deferred, Ok(vec![sequence]));
    assert_eq!(broker.state(sequence), Some(MessageState::Deferred));
    assert_eq!(broker.ready(), vec![2]);
}

#[test]
fn a_topic_numbers_the_messages_of_its_subscriptions() {
    let mut broker = Broker::new();
    assert_eq!(
        broker.tell(CommandKind::CreateTopic { config: TopicConfig::default() }),
        Ok(CommandOutcome::TopicCreated)
    );
    for name in ["all", "most"] {
        assert!(broker.tell(subscribe(name)).is_ok());
    }
    for id in ["a", "b"] {
        assert!(broker.tell(send(id, b"x")).is_ok());
    }
    broker.entity = String::from("orders/subscriptions/all");
    let (sequence, lock_token) = broker.locked();
    assert_eq!(sequence, numbered(1));
    assert_eq!(
        broker.tell(CommandKind::DeadLetter {
            sequence,
            lock_token,
            reason: String::from("r"),
            description: String::from("d"),
            replacement_envelope: None,
        }),
        Ok(CommandOutcome::DeadLettered)
    );
    assert_eq!((broker.ready(), broker.dead()), (vec![2], vec![1]));
    broker.entity = String::from("orders/subscriptions/most");
    assert_eq!((broker.ready(), broker.dead()), (vec![1, 2], vec![]));
    broker.entity = String::from("orders");
    assert!(matches!(
        broker.tell(send("c", b"x")),
        Ok(CommandOutcome::Published { sequences, .. }) if sequences == vec![numbered(3)]
    ));
}

#[test]
fn lock_tokens_are_never_reused() {
    let mut broker = Broker::queue();
    broker.sent(send("a", b"one"));
    let (sequence, stale) = broker.locked();
    broker.now = 100_000;
    assert_eq!(
        broker.tell(CommandKind::ExpireLocks),
        Ok(CommandOutcome::LocksExpired { returned_to_ready: 1, dead_lettered: 0 })
    );
    let (again, fresh) = broker.locked();
    assert_eq!(again, sequence);
    assert_ne!(fresh, stale);
    assert!(broker.tell(CommandKind::Complete { sequence, lock_token: stale }).is_err());
    assert_eq!(
        broker.tell(CommandKind::Complete { sequence, lock_token: fresh }),
        Ok(CommandOutcome::Completed)
    );
}

#[test]
fn what_was_sent_is_received() {
    let mut broker = Broker::queue();
    let sequence = broker.sent(send("a", b"payload"));
    let delivery = broker.received(receive(ReceiveMode::ReceiveAndDelete)).expect("a message");
    assert_eq!(
        (delivery.sequence, delivery.message_id.as_str(), delivery.body.as_slice()),
        (sequence, "a", b"payload".as_slice())
    );
    assert!(broker.received(receive(ReceiveMode::ReceiveAndDelete)).is_none());
}

#[test]
fn sessions_are_found() {
    let any = || CommandKind::AcceptSession { session_id: None, lock_duration_millis: None };
    let mut broker = Broker::sessions();
    assert_eq!(broker.tell(any()), Ok(CommandOutcome::SessionAccepted(None)));
    for (id, session_id) in [("1", "b"), ("2", "a"), ("3", "ab"), ("4", "a")] {
        broker.sent(send_in(id, session_id));
    }
    for expected in ["a", "ab", "b"] {
        match broker.tell(any()) {
            Ok(CommandOutcome::SessionAccepted(Some(accepted))) => {
                assert_eq!(accepted.session_id, session(expected));
            }
            other => panic!("a session is free: {other:?}"),
        }
    }
    assert_eq!(broker.tell(any()), Ok(CommandOutcome::SessionAccepted(None)));
    broker.now = 500_000;
    assert!(matches!(
        broker.tell(any()),
        Ok(CommandOutcome::SessionAccepted(Some(accepted))) if accepted.session_id == session("a")
    ));
}
