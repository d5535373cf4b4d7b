//! One command, applied.

use vstd::prelude::*;

use crate::domain::codec;
use crate::domain::command::{
    Command, CommandKind, CommandOutcome, CommandView, InputView, KindView, MessageInput,
    OutcomeView,
};
use crate::domain::error::{BrokerError, ErrorView};
use crate::domain::identifier;
use crate::domain::keys;
use crate::domain::machine;
use crate::domain::machine::deferred;
use crate::domain::machine::delivery;
use crate::domain::machine::duplicate;
use crate::domain::machine::expiry;
use crate::domain::machine::peek;
use crate::domain::machine::rules;
use crate::domain::machine::scheduling;
use crate::domain::machine::send;
use crate::domain::machine::send::SendInput;
use crate::domain::machine::sessions;
use crate::domain::machine::shared;
use crate::domain::machine::topic;
use crate::domain::machine::{StateMachine, Step};
use crate::domain::queue;
use crate::domain::queue::QueueConfig;
use crate::domain::time::Timestamp;
use crate::storage;
use crate::storage::{Contents, OpView, StateStore, WriteBatch};

verus! {

// ---- what is decided -------------------------------------------------------

/// The queue that shadows a queue: the same limits, without lifetimes or
/// sessions, and without a delivery limit.
pub open spec fn queue_shadow(config: QueueConfig) -> QueueConfig {
    QueueConfig {
        max_delivery_count: u32::MAX,
        default_time_to_live_millis: None,
        requires_session: false,
        ..config
    }
}

/// What creating a queue does. Every queue casts a dead-letter shadow. Failing
/// here, rather than at the first dead-lettering, is why a parent whose shadow
/// path would be too long cannot be created.
pub open spec fn create_queue_step(
    m: Contents,
    c: CommandView,
    config: QueueConfig,
    batch: Seq<OpView>,
) -> Step {
    let key = keys::queue_config_key(c.namespace, c.entity);
    if identifier::names_dead_letter_queue(c.entity) {
        Err(ErrorView::DeadLetterQueueIsReserved)
    } else if m.dom().contains(key) {
        Err(ErrorView::QueueAlreadyExists)
    } else if m.dom().contains(keys::topic_config_key(c.namespace, c.entity)) {
        Err(ErrorView::EntityAlreadyExists)
    } else {
        match queue::queue_config_fault(config) {
            Some(error) => Err(ErrorView::QueueConfig(error)),
            None => match machine::shadow_of(c.entity) {
                Err(error) => Err(error),
                Ok(shadow) => Ok(
                    (
                        batch.push(shared::put(key, codec::encoded::<QueueConfig>(config))).push(
                            shared::put(
                                keys::queue_config_key(c.namespace, shadow),
                                codec::encoded::<QueueConfig>(queue_shadow(config)),
                            ),
                        ),
                        OutcomeView::QueueCreated,
                    ),
                ),
            },
        }
    }
}

/// What a send does: on a topic it publishes.
pub open spec fn send_step(
    m: Contents,
    c: CommandView,
    input: InputView,
    batch: Seq<OpView>,
) -> Step {
    if m.dom().contains(keys::topic_config_key(c.namespace, c.entity)) {
        topic::publish_step(m, c, seq![input], batch)
    } else {
        send::queue_send_step(m, c, input, batch)
    }
}

/// What a batch send does: on a topic it publishes.
pub open spec fn send_batch_step(
    m: Contents,
    c: CommandView,
    inputs: Seq<InputView>,
    batch: Seq<OpView>,
) -> Step {
    if m.dom().contains(keys::topic_config_key(c.namespace, c.entity)) {
        topic::publish_step(m, c, inputs, batch)
    } else {
        send::queue_send_batch_step(m, c, inputs, batch)
    }
}

/// What a command does on top of the changes in `batch`.
pub open spec fn command_step(m: Contents, c: CommandView, batch: Seq<OpView>) -> Step {
    match c.kind {
        KindView::CreateQueue { config } => create_queue_step(m, c, config, batch),
        KindView::CreateTopic { config } => topic::create_topic_step(m, c, config, batch),
        KindView::CreateSubscription { name, config } => topic::create_subscription_step(
            m,
            c,
            name,
            config,
            batch,
        ),
        KindView::CreateRule { name, filter } => rules::create_rule_step(
            m,
            c,
            name,
            filter,
            batch,
        ),
        KindView::DeleteRule { name } => rules::delete_rule_step(m, c, name, batch),
        KindView::ListRules { skip, max_rules } => rules::list_rules_step(
            m,
            c,
            skip,
            max_rules,
            batch,
        ),
        KindView::Send {
            message_id,
            body,
            time_to_live_millis,
            session_id,
            scheduled_enqueue_at,
            envelope,
        } => send_step(
            m,
            c,
            InputView {
                message_id,
                body,
                time_to_live_millis,
                session_id,
                scheduled_enqueue_at,
                envelope,
            },
            batch,
        ),
        KindView::SendBatch { messages } => send_batch_step(m, c, messages, batch),
        KindView::CancelScheduled { sequences } => scheduling::cancel_scheduled_step(
            m,
            c,
            sequences,
            batch,
        ),
        KindView::Peek { from_sequence, max_messages, session } => peek::peek_step(
            m,
            c,
            from_sequence,
            max_messages,
            session,
            batch,
        ),
        KindView::Receive { mode, lock_duration_millis, session } => delivery::receive_step(
            m,
            c,
            mode,
            lock_duration_millis,
            session,
            batch,
        ),
        KindView::Complete { sequence, lock_token } => delivery::complete_step(
            m,
            c,
            sequence,
            lock_token,
            batch,
        ),
        KindView::Abandon { sequence, lock_token, replacement_envelope } => delivery::abandon_step(
            m,
            c,
            sequence,
            lock_token,
            replacement_envelope,
            batch,
        ),
        KindView::Defer { sequence, lock_token, replacement_envelope } => deferred::defer_step(
            m,
            c,
            sequence,
            lock_token,
            replacement_envelope,
            batch,
        ),
        KindView::ReceiveDeferred {
            sequences,
            mode,
            lock_duration_millis,
            session,
        } => deferred::receive_deferred_step(
            m,
            c,
            sequences,
            mode,
            lock_duration_millis,
            session,
            batch,
        ),
        KindView::DeadLetter {
            sequence,
            lock_token,
            reason,
            description,
            replacement_envelope,
        } => delivery::dead_letter_step(
            m,
            c,
            sequence,
            lock_token,
            reason,
            description,
            replacement_envelope,
            batch,
        ),
        KindView::RenewLock {
            sequence,
            lock_token,
            lock_duration_millis,
        } => delivery::renew_lock_step(m, c, sequence, lock_token, lock_duration_millis, batch),
        KindView::AcceptSession {
            session_id,
            lock_duration_millis,
        } => sessions::accept_session_step(m, c, session_id, lock_duration_millis, batch),
        KindView::ReleaseSession { session } => sessions::release_session_step(
            m,
            c,
            session,
            batch,
        ),
        KindView::RenewSessionLock {
            session,
            lock_duration_millis,
        } => sessions::renew_session_lock_step(m, c, session, lock_duration_millis, batch),
        KindView::SetSessionState { session, state } => sessions::set_session_state_step(
            m,
            c,
            session,
            state,
            batch,
        ),
        KindView::GetSessionState { session } => sessions::get_session_state_step(
            m,
            c,
            session,
            batch,
        ),
        KindView::ExpireLocks => expiry::expire_locks_step(m, c, batch),
        KindView::ExpireMessages => expiry::expire_messages_step(m, c, batch),
        KindView::ExpireSessionLocks => sessions::expire_session_locks_step(m, c, batch),
        KindView::ActivateScheduled => scheduling::activate_scheduled_step(m, c, batch),
        KindView::ExpireDuplicateHistory => duplicate::expire_duplicate_history_step(m, c, batch),
    }
}

/// The change that advances the clock.
pub open spec fn clock_change(now: Timestamp) -> OpView {
    shared::put(keys::clock_key(), codec::encoded::<Timestamp>(now))
}

/// `m` after the changes of a command. A command that changed nothing commits
/// nothing; any other advances the clock along with its changes.
pub open spec fn committed(m: Contents, changes: Seq<OpView>, now: Timestamp) -> Contents {
    if changes.len() == 0 {
        m
    } else {
        storage::apply_ops(m, changes.push(clock_change(now)))
    }
}

/// The outcome of a command and what the store holds afterwards.
pub open spec fn applied(m: Contents, c: CommandView) -> (
    Result<OutcomeView, ErrorView>,
    Contents,
) {
    match machine::applied_time(m) {
        Err(error) => (Err(error), m),
        Ok(last_applied) => if c.issued_at.0 < last_applied.0 {
            (Err(ErrorView::ClockRegression { last_applied, proposed: c.issued_at }), m)
        } else {
            match command_step(m, c, Seq::empty()) {
                Err(error) => (Err(error), m),
                Ok((changes, outcome)) => (Ok(outcome), committed(m, changes, c.issued_at)),
            }
        },
    }
}

// ---- how it is done --------------------------------------------------------

/// The messages of a batch.
#[verifier::loop_isolation(false)]
fn inputs_of<'a>(messages: &'a Vec<MessageInput>) -> (inputs: Vec<SendInput<'a>>)
    ensures
        duplicate::inputs_view(inputs@) == messages.deep_view(),
{
    let mut inputs: Vec<SendInput<'a>> = Vec::new();
    let mut i: usize = 0;
    while i < messages.len()
        invariant
            i <= messages@.len(),
            inputs@.len() == i,
            forall|k: int|
                0 <= k < i ==> (#[trigger] inputs@[k]).deep_view() == messages@[k].deep_view(),
        decreases messages@.len() - i,
    {
        inputs.push(SendInput::of(&messages[i]));
        i = i + 1;
    }
    proof {
        assert(duplicate::inputs_view(inputs@) =~= messages.deep_view());
    }
    inputs
}

impl<S: StateStore> StateMachine<S> {
    fn create_queue(
        &self,
        command: &Command,
        config: QueueConfig,
        batch: &mut WriteBatch,
    ) -> (outcome: Result<CommandOutcome, BrokerError>)
        ensures
            machine::stepped(
                self.reliable(),
                outcome,
                final(batch).deep_view(),
                create_queue_step(
                    self.contents(),
                    command.deep_view(),
                    config,
                    old(batch).deep_view(),
                ),
            ),
    {
        if command.entity.is_dead_letter_queue() {
            return Err(BrokerError::DeadLetterQueueIsReserved);
        }
        let key = keys::queue_config(&command.namespace, &command.entity);
        if self.lookup(key.as_slice())?.is_some() {
            return Err(BrokerError::QueueAlreadyExists);
        }
        let topic_key = keys::topic_config(&command.namespace, &command.entity);
        if self.lookup(topic_key.as_slice())?.is_some() {
            return Err(BrokerError::EntityAlreadyExists);
        }
        let config = match config.validate() {
            Ok(config) => config,
            Err(error) => return Err(BrokerError::QueueConfig(error)),
        };
        let dead_letter_queue = Self::shadow(&command.entity)?;
        let mut shadow = config;
        shadow.max_delivery_count = u32::MAX;
        shadow.default_time_to_live_millis = None;
        shadow.requires_session = false;
        batch.push_put(key, codec::store(&config));
        batch.push_put(
            keys::queue_config(&command.namespace, &dead_letter_queue),
            codec::store(&shadow),
        );
        Ok(CommandOutcome::QueueCreated)
    }

    fn is_topic(&self, command: &Command) -> (yes: Result<bool, BrokerError>)
        ensures
            match yes {
                Ok(yes) => yes == self.contents().dom().contains(
                    keys::topic_config_key(
                        command.deep_view().namespace,
                        command.deep_view().entity,
                    ),
                ),
                Err(error) => error is Storage && !self.reliable(),
            },
    {
        let key = keys::topic_config(&command.namespace, &command.entity);
        let found = self.lookup(key.as_slice())?;
        Ok(found.is_some())
    }

    fn send(&self, command: &Command, input: SendInput<'_>, batch: &mut WriteBatch) -> (outcome:
        Result<CommandOutcome, BrokerError>)
        ensures
            machine::stepped(
                self.reliable(),
                outcome,
                final(batch).deep_view(),
                send_step(
                    self.contents(),
                    command.deep_view(),
                    input.deep_view(),
                    old(batch).deep_view(),
                ),
            ),
    {
        if self.is_topic(command)? {
            let mut inputs: Vec<SendInput<'_>> = Vec::new();
            inputs.push(input);
            proof {
                assert(duplicate::inputs_view(inputs@) =~= seq![input.deep_view()]);
            }
            self.publish(command, inputs.as_slice(), batch)
        } else {
            self.queue_send(command, input, batch)
        }
    }

    fn send_batch(
        &self,
        command: &Command,
        messages: &Vec<MessageInput>,
        batch: &mut WriteBatch,
    ) -> (outcome: Result<CommandOutcome, BrokerError>)
        ensures
            machine::stepped(
                self.reliable(),
                outcome,
                final(batch).deep_view(),
                send_batch_step(
                    self.contents(),
                    command.deep_view(),
                    messages.deep_view(),
                    old(batch).deep_view(),
                ),
            ),
    {
        let inputs = inputs_of(messages);
        if self.is_topic(command)? {
            self.publish(command, inputs.as_slice(), batch)
        } else {
            self.queue_send_batch(command, inputs.as_slice(), batch)
        }
    }

    /// Stages the changes of one command.
    fn stage(&self, command: &Command, batch: &mut WriteBatch) -> (outcome: Result<
        CommandOutcome,
        BrokerError,
    >)
        ensures
            machine::stepped(
                self.reliable(),
                outcome,
                final(batch).deep_view(),
                command_step(self.contents(), command.deep_view(), old(batch).deep_view()),
            ),
    {
        match &command.kind {
            CommandKind::CreateQueue { config } => self.create_queue(command, *config, batch),
            CommandKind::CreateTopic { config } => self.create_topic(command, *config, batch),
            CommandKind::CreateSubscription { name, config } => self.create_subscription(
                command,
                name,
                *config,
                batch,
            ),
            CommandKind::CreateRule { name, filter } => self.create_rule(
                command,
                name,
                filter,
                batch,
            ),
            CommandKind::DeleteRule { name } => self.delete_rule(command, name, batch),
            CommandKind::ListRules { skip, max_rules } => self.list_rules(
                command,
                *skip,
                *max_rules,
                &*batch,
            ),
            CommandKind::Send {
                message_id,
                body,
                time_to_live_millis,
                session_id,
                scheduled_enqueue_at,
                envelope,
            } => self.send(
                command,
                SendInput {
                    message_id: message_id.as_str(),
                    body: body.as_slice(),
                    time_to_live_millis: *time_to_live_millis,
                    session_id: session_id.as_ref(),
                    scheduled_enqueue_at: *scheduled_enqueue_at,
                    envelope: envelope.as_ref(),
                },
                batch,
            ),
            CommandKind::SendBatch { messages } => self.send_batch(command, messages, batch),
            CommandKind::CancelScheduled { sequences } => self.cancel_scheduled(
                command,
                sequences.as_slice(),
                batch,
            ),
            CommandKind::Peek { from_sequence, max_messages, session } => self.peek(
                command,
                *from_sequence,
                *max_messages,
                session.as_ref(),
                &*batch,
            ),
            CommandKind::Receive { mode, lock_duration_millis, session } => self.receive(
                command,
                *mode,
                *lock_duration_millis,
                session.as_ref(),
                batch,
            ),
            CommandKind::Complete { sequence, lock_token } => self.complete(
                command,
                *sequence,
                *lock_token,
                batch,
            ),
            CommandKind::Abandon { sequence, lock_token, replacement_envelope } => self.abandon(
                command,
                *sequence,
                *lock_token,
                replacement_envelope.as_ref(),
                batch,
            ),
            CommandKind::Defer { sequence, lock_token, replacement_envelope } => self.defer(
                command,
                *sequence,
                *lock_token,
                replacement_envelope.as_ref(),
                batch,
            ),
            CommandKind::ReceiveDeferred {
                sequences,
                mode,
                lock_duration_millis,
                session,
            } => self.receive_deferred(
                command,
                sequences.as_slice(),
                *mode,
                *lock_duration_millis,
                session.as_ref(),
                batch,
            ),
            CommandKind::DeadLetter {
                sequence,
                lock_token,
                reason,
                description,
                replacement_envelope,
            } => self.dead_letter(
                command,
                *sequence,
                *lock_token,
                reason.as_str(),
                description.as_str(),
                replacement_envelope.as_ref(),
                batch,
            ),
            CommandKind::RenewLock { sequence, lock_token, lock_duration_millis } => self.renew_lock(
                command,
                *sequence,
                *lock_token,
                *lock_duration_millis,
                batch,
            ),
            CommandKind::AcceptSession { session_id, lock_duration_millis } => self.accept_session(
                command,
                session_id.as_ref(),
                *lock_duration_millis,
                batch,
            ),
            CommandKind::ReleaseSession { session } => self.release_session(
                command,
                session,
                batch,
            ),
            CommandKind::RenewSessionLock {
                session,
                lock_duration_millis,
            } => self.renew_session_lock(command, session, *lock_duration_millis, batch),
            CommandKind::SetSessionState { session, state } => self.set_session_state(
                command,
                session,
                state.as_slice(),
                batch,
            ),
            CommandKind::GetSessionState { session } => self.get_session_state(
                command,
                session,
                &*batch,
            ),
            CommandKind::ExpireLocks => self.expire_locks(command, batch),
            CommandKind::ExpireMessages => self.expire_messages(command, batch),
            CommandKind::ExpireSessionLocks => self.expire_session_locks(command, batch),
            CommandKind::ActivateScheduled => self.activate_scheduled(command, batch),
            CommandKind::ExpireDuplicateHistory => self.expire_duplicate_history(command, batch),
        }
    }

    /// Applies one replicated command.
    ///
    /// On error nothing is written, so a rejection leaves state untouched on
    /// every replica.
    pub fn apply(&mut self, command: &Command) -> (outcome: Result<CommandOutcome, BrokerError>)
        ensures
            final(self).reliable() == old(self).reliable(),
            outcome is Err ==> final(self).contents() == old(self).contents(),
            match outcome {
                Ok(outcome) => applied(old(self).contents(), command.deep_view()) == (
                    Ok::<OutcomeView, ErrorView>(outcome.deep_view()),
                    final(self).contents(),
                ),
                Err(BrokerError::Storage(_)) => !old(self).reliable(),
                Err(error) => applied(old(self).contents(), command.deep_view()).0 == Err::<
                    OutcomeView,
                    ErrorView,
                >(error.deep_view()),
            },
    {
        let last_applied = self.last_applied_time()?;
        if command.issued_at.0 < last_applied.0 {
            return Err(
                BrokerError::ClockRegression { last_applied, proposed: command.issued_at },
            );
        }
        let mut batch = WriteBatch::default();
        let outcome = self.stage(command, &mut batch)?;

        // A command that changed nothing commits nothing. The clock advance is
        // bookkeeping for the mutations alongside it, and committing it alone
        // would turn every empty receive and every idle timer sweep into a
        // durable write. Skipping is deterministic: every replica computes the
        // same empty batch, so every replica skips the same commands.
        if !batch.is_empty() {
            // Advancing the clock in the same batch keeps the applied timestamp
            // and the state it produced consistent under a crash.
            batch.push_put(keys::clock(), codec::store(&command.issued_at));
            match self.store.apply(batch) {
                Ok(()) => {},
                Err(error) => return Err(BrokerError::Storage(error)),
            }
        }
        Ok(outcome)
    }
}

} // verus!
