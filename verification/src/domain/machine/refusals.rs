//! When a command is told that the clock would run backwards.

use vstd::prelude::*;

use crate::domain::codec;
use crate::domain::command::{CommandView, InputView, KindView, OutcomeView};
use crate::domain::error::ErrorView;
use crate::domain::identifier;
use crate::domain::keys;
use crate::domain::machine;
use crate::domain::machine::{
    apply, deferred, delivery, duplicate, expiry, peek, rules, scheduling, send, sessions, shared,
    topic,
};
use crate::domain::message;
use crate::domain::message::{
    DeliveryView, MessageState, ReceiveMode, RecordView, SequenceNumber,
};
use crate::domain::queue;
use crate::domain::queue::QueueConfig;
use crate::domain::rule;
use crate::domain::rule::{RuleDefinition, MAX_SUBSCRIPTION_RULES};
use crate::domain::time::Timestamp;
use crate::domain::topic::TopicConfig;
use crate::domain::wire::Wire;
use crate::storage;
use crate::storage::{Contents, OpView};

verus! {

/// Whether a result is that the clock would run backwards.
pub open spec fn tells_of_the_clock<A>(result: Result<A, ErrorView>) -> bool {
    result matches Err(error) && error is ClockRegression
}

broadcast proof fn resolving_is_silent(
    m: Contents,
    c: CommandView,
    sequences: Seq<SequenceNumber>,
    expected: Option<Seq<char>>,
    i: int,
    found: Seq<RecordView>,
)
    ensures
        !tells_of_the_clock(#[trigger] deferred::resolved(m, c, sequences, expected, i, found)),
    decreases sequences.len() - i,
{
    if i < sequences.len() {
        if let Ok(record) = deferred::deferred_message(m, c, sequences[i], expected) {
            resolving_is_silent(m, c, sequences, expected, i + 1, found.push(record));
        }
    }
}

broadcast proof fn handing_out_is_silent(
    c: CommandView,
    config: QueueConfig,
    mode: ReceiveMode,
    asked: Option<u64>,
    records: Seq<RecordView>,
    i: int,
    state: deferred::DeferredState,
)
    ensures
        !tells_of_the_clock(
            #[trigger] deferred::all_handed_out(c, config, mode, asked, records, i, state),
        ),
    decreases records.len() - i,
{
    if i < records.len() {
        if let Ok(next) = deferred::deferred_handed_out(c, config, mode, asked, records[i], state) {
            handing_out_is_silent(c, config, mode, asked, records, i + 1, next);
        }
    }
}

broadcast proof fn receiving_is_silent(
    m: Contents,
    c: CommandView,
    config: QueueConfig,
    mode: ReceiveMode,
    asked: Option<u64>,
    ready: Seq<(Seq<u8>, Seq<u8>)>,
    batch: Seq<OpView>,
)
    ensures
        !tells_of_the_clock(
            #[trigger] delivery::receive_from(m, c, config, mode, asked, ready, batch),
        ),
    decreases ready.len(),
{
    if ready.len() > 0 {
        if let Some(sequence) = keys::last_sequence(ready[0].0) {
            if let Ok(Some(record)) = machine::message_at(m, c.namespace, c.entity, sequence) {
                if let Ok(longer) = shared::lifetime_over(c, record, batch) {
                    receiving_is_silent(m, c, config, mode, asked, ready.skip(1), longer);
                }
            }
        }
    }
}

broadcast proof fn judging_is_silent(
    m: Contents,
    c: CommandView,
    config: QueueConfig,
    inputs: Seq<InputView>,
    i: int,
    state: duplicate::HistoryState,
)
    ensures
        !tells_of_the_clock(#[trigger] duplicate::all_judged(m, c, config, inputs, i, state)),
    decreases inputs.len() - i,
{
    if i < inputs.len() {
        if let Ok(next) = duplicate::judged(m, c, config, inputs, i, state) {
            judging_is_silent(m, c, config, inputs, i + 1, next);
        }
    }
}

broadcast proof fn forgetting_is_silent(
    m: Contents,
    c: CommandView,
    expiring: Seq<(Seq<u8>, Seq<u8>)>,
    batch: Seq<OpView>,
    forgotten: nat,
)
    ensures
        !tells_of_the_clock(#[trigger] duplicate::forget_elapsed(m, c, expiring, batch, forgotten)),
    decreases expiring.len(),
{
    if expiring.len() > 0 {
        let prefix = keys::duplicate_expiry_prefix_key(c.namespace, c.entity);
        if let Some((_, id)) = keys::deadline_and_text(prefix, expiring[0].0) {
            let found = shared::drop_key(keys::duplicate_id_key(c.namespace, c.entity, id));
            let entry = shared::drop_key(expiring[0].0);
            forgetting_is_silent(m, c, expiring.skip(1), batch.push(entry), forgotten + 1);
            forgetting_is_silent(
                m,
                c,
                expiring.skip(1),
                batch.push(found).push(entry),
                forgotten + 1,
            );
        }
    }
}

broadcast proof fn undoing_is_silent(
    m: Contents,
    c: CommandView,
    config: QueueConfig,
    locks: Seq<(Seq<u8>, Seq<u8>)>,
    batch: Seq<OpView>,
    returned: nat,
    dead: nat,
)
    ensures
        !tells_of_the_clock(
            #[trigger] expiry::undo_elapsed(m, c, config, locks, batch, returned, dead),
        ),
    decreases locks.len(),
{
    if locks.len() > 0 {
        if let Some((locked_until, sequence)) = keys::last_deadline(locks[0].0) {
            if let Ok(Some(record)) = machine::message_at(m, c.namespace, c.entity, sequence) {
                let rest = locks.skip(1);
                if let Ok(longer) = shared::lifetime_over(c, record, batch) {
                    undoing_is_silent(m, c, config, rest, longer, returned, dead + 1);
                }
                if let Ok(longer) = shared::deliveries_over(c, record, batch) {
                    undoing_is_silent(m, c, config, rest, longer, returned, dead + 1);
                }
                if let MessageState::Locked { origin, .. } = record.state {
                    if let Ok(longer) = shared::returned(c, record, locked_until, origin, batch) {
                        undoing_is_silent(m, c, config, rest, longer, returned + 1, dead);
                    }
                }
            }
        }
    }
}

broadcast proof fn ending_is_silent(
    m: Contents,
    c: CommandView,
    expiring: Seq<(Seq<u8>, Seq<u8>)>,
    batch: Seq<OpView>,
    dead: nat,
)
    ensures
        !tells_of_the_clock(#[trigger] expiry::end_elapsed(m, c, expiring, batch, dead)),
    decreases expiring.len(),
{
    if expiring.len() > 0 {
        if let Some((_, sequence)) = keys::last_deadline(expiring[0].0) {
            if let Ok(Some(record)) = machine::message_at(m, c.namespace, c.entity, sequence) {
                let rest = expiring.skip(1);
                if let Ok(longer) = shared::lifetime_over(c, record, batch) {
                    ending_is_silent(m, c, rest, longer, dead + 1);
                }
                ending_is_silent(m, c, rest, batch.push(shared::drop_key(expiring[0].0)), dead);
            }
        }
    }
}

broadcast proof fn browsing_is_silent(
    m: Contents,
    c: CommandView,
    expected: Option<Seq<char>>,
    walked: Seq<Seq<u8>>,
    i: int,
    n: nat,
    found: Seq<DeliveryView>,
)
    ensures
        !tells_of_the_clock(#[trigger] peek::browse_from(m, c, expected, walked, i, n, found)),
    decreases walked.len() - i,
{
    if i < walked.len() {
        if let Ok(record) = message::decoded_record(m[walked[i]]) {
            let shown = message::delivery_of(record, peek::peeked_origin(record.state), None);
            browsing_is_silent(m, c, expected, walked, i + 1, n, found);
            browsing_is_silent(m, c, expected, walked, i + 1, n, found.push(shown));
        }
    }
}

broadcast proof fn values_are_silent<T: Wire>(
    entries: Seq<(Seq<u8>, Seq<u8>)>,
    i: int,
    found: Seq<T::V>,
)
    ensures
        !tells_of_the_clock(#[trigger] rules::values_from::<T>(entries, i, found)),
    decreases entries.len() - i,
{
    if i < entries.len() {
        if let Ok(value) = codec::decoded::<T>(entries[i].1) {
            values_are_silent::<T>(entries, i + 1, found.push(value));
        }
    }
}

broadcast proof fn due_times_are_silent(
    m: Contents,
    c: CommandView,
    sequences: Seq<SequenceNumber>,
    i: int,
    found: Seq<Timestamp>,
)
    ensures
        !tells_of_the_clock(#[trigger] scheduling::due_times(m, c, sequences, i, found)),
    decreases sequences.len() - i,
{
    if i < sequences.len() {
        if let Ok(at) = scheduling::due_time(m, c, sequences[i]) {
            due_times_are_silent(m, c, sequences, i + 1, found.push(at));
        }
    }
}

broadcast proof fn activating_is_silent(
    m: Contents,
    c: CommandView,
    due: Seq<(Seq<u8>, Seq<u8>)>,
    state: scheduling::ActivationState,
)
    ensures
        !tells_of_the_clock(#[trigger] scheduling::activate_due(m, c, due, state)),
    decreases due.len(),
{
    if due.len() > 0 {
        if let Some((enqueue_at, placeholder)) = keys::last_deadline(due[0].0) {
            if let Ok(record) = scheduling::due_record(m, c, enqueue_at, placeholder) {
                let active = scheduling::active_record(
                    record,
                    enqueue_at,
                    SequenceNumber(state.1),
                    c.issued_at,
                );
                activating_is_silent(
                    m,
                    c,
                    due.skip(1),
                    (
                        scheduling::activated_changes(c, due[0].0, placeholder, active, state.0),
                        queue::bump(state.1),
                        state.2 + 1,
                    ),
                );
            }
        }
    }
}

broadcast proof fn input_faults_are_silent(
    config: QueueConfig,
    inputs: Seq<InputView>,
    i: int,
)
    ensures
        !((#[trigger] send::fault_from(config, inputs, i)) matches Some(error)
            && error is ClockRegression),
    decreases inputs.len() - i,
{
    if i < inputs.len() {
        input_faults_are_silent(config, inputs, i + 1);
    }
}

broadcast proof fn topic_faults_are_silent(
    config: TopicConfig,
    inputs: Seq<InputView>,
    i: int,
)
    ensures
        !((#[trigger] topic::topic_fault_from(config, inputs, i)) matches Some(error)
            && error is ClockRegression),
    decreases inputs.len() - i,
{
    if i < inputs.len() {
        topic_faults_are_silent(config, inputs, i + 1);
    }
}

broadcast proof fn accepting_is_silent(
    m: Contents,
    c: CommandView,
    locked_until: Timestamp,
    start: Seq<u8>,
    n: nat,
    batch: Seq<OpView>,
)
    ensures
        !tells_of_the_clock(#[trigger] sessions::accept_from(m, c, locked_until, start, n, batch)),
    decreases n,
{
    let prefix = keys::entity_session_ready_prefix_key(c.namespace, c.entity);
    let found = storage::scan(m, prefix, start, 1);
    if n > 0 && found.len() > 0 {
        if let Some(text) = keys::session_after(prefix, found[0].0) {
            if let Ok(id) = identifier::session_id_of(text) {
                let behind = keys::after_session_ready_key(c.namespace, c.entity, id);
                accepting_is_silent(m, c, locked_until, behind, (n - 1) as nat, batch);
            }
        }
    }
}

broadcast proof fn releasing_is_silent(
    m: Contents,
    c: CommandView,
    locks: Seq<(Seq<u8>, Seq<u8>)>,
    batch: Seq<OpView>,
    released: nat,
)
    ensures
        !tells_of_the_clock(#[trigger] sessions::release_elapsed(m, c, locks, batch, released)),
    decreases locks.len(),
{
    if locks.len() > 0 {
        let prefix = keys::session_lock_prefix_key(c.namespace, c.entity);
        if let Some((_, text)) = keys::deadline_and_text(prefix, locks[0].0) {
            if let Ok(id) = identifier::session_id_of(text) {
                if let Ok(record) = machine::session_of(m, c, id) {
                    let longer = shared::unlocked_session(c, id, record, batch);
                    releasing_is_silent(m, c, locks.skip(1), longer, released + 1);
                }
            }
        }
    }
}

broadcast proof fn subscribers_are_silent(
    m: Contents,
    namespace: Seq<char>,
    paths: Seq<Seq<char>>,
    i: int,
    found: Seq<topic::Subscriber>,
)
    ensures
        !tells_of_the_clock(#[trigger] topic::subscribers_from(m, namespace, paths, i, found)),
    decreases paths.len() - i,
{
    if i < paths.len() {
        let prefix = keys::subscription_rule_prefix_key(namespace, paths[i]);
        values_are_silent::<RuleDefinition>(
            storage::scan(m, prefix, prefix, (MAX_SUBSCRIPTION_RULES + 1) as usize),
            0,
            Seq::empty(),
        );
        if let Ok(next) = topic::subscriber(m, namespace, paths[i]) {
            subscribers_are_silent(m, namespace, paths, i + 1, found.push(next));
        }
    }
}

broadcast proof fn publishing_is_silent(
    c: CommandView,
    topic_config: TopicConfig,
    inputs: Seq<InputView>,
    subscribers: Seq<topic::Subscriber>,
    i: int,
    state: topic::PublishState,
)
    ensures
        !tells_of_the_clock(
            #[trigger] topic::publish_from(c, topic_config, inputs, subscribers, i, state),
        ),
    decreases inputs.len() - i,
{
    if i < inputs.len() {
        if let Ok(properties) = rule::canonical_view(topic::inspected(inputs[i])) {
            let next = topic::fan_out(
                c,
                topic_config,
                inputs[i],
                SequenceNumber(state.1),
                properties,
                subscribers,
                0,
                state.0,
            );
            publishing_is_silent(
                c,
                topic_config,
                inputs,
                subscribers,
                i + 1,
                (next, queue::bump(state.1)),
            );
        }
    }
}

broadcast group group_silence {
    resolving_is_silent,
    handing_out_is_silent,
    receiving_is_silent,
    judging_is_silent,
    forgetting_is_silent,
    undoing_is_silent,
    ending_is_silent,
    browsing_is_silent,
    values_are_silent,
    due_times_are_silent,
    activating_is_silent,
    input_faults_are_silent,
    topic_faults_are_silent,
    accepting_is_silent,
    releasing_is_silent,
    subscribers_are_silent,
    publishing_is_silent,
}

proof fn creating_is_silent(m: Contents, c: CommandView, batch: Seq<OpView>)
    requires
        c.kind is CreateQueue || c.kind is CreateTopic || c.kind is CreateSubscription
            || c.kind is CreateRule || c.kind is DeleteRule || c.kind is ListRules,
    ensures
        !tells_of_the_clock(apply::command_step(m, c, batch)),
{
    broadcast use group_silence;

}

proof fn single_sends_are_silent(m: Contents, c: CommandView, batch: Seq<OpView>)
    requires
        c.kind is Send,
    ensures
        !tells_of_the_clock(apply::command_step(m, c, batch)),
{
    broadcast use group_silence;

}

proof fn batches_are_silent(m: Contents, c: CommandView, batch: Seq<OpView>)
    requires
        c.kind is SendBatch,
    ensures
        !tells_of_the_clock(apply::command_step(m, c, batch)),
{
    broadcast use group_silence;

}

proof fn receives_are_silent(m: Contents, c: CommandView, batch: Seq<OpView>)
    requires
        c.kind is Receive || c.kind is ReceiveDeferred,
    ensures
        !tells_of_the_clock(apply::command_step(m, c, batch)),
{
    broadcast use group_silence;

}

proof fn settling_is_silent(m: Contents, c: CommandView, batch: Seq<OpView>)
    requires
        c.kind is Complete || c.kind is Abandon || c.kind is Defer || c.kind is DeadLetter
            || c.kind is RenewLock,
    ensures
        !tells_of_the_clock(apply::command_step(m, c, batch)),
{
    broadcast use group_silence;

}

proof fn sessions_are_silent(m: Contents, c: CommandView, batch: Seq<OpView>)
    requires
        c.kind is AcceptSession || c.kind is ReleaseSession || c.kind is RenewSessionLock
            || c.kind is SetSessionState || c.kind is GetSessionState
            || c.kind is ExpireSessionLocks,
    ensures
        !tells_of_the_clock(apply::command_step(m, c, batch)),
{
    broadcast use group_silence;

}

proof fn sweeps_are_silent(m: Contents, c: CommandView, batch: Seq<OpView>)
    requires
        c.kind is ExpireLocks || c.kind is ExpireMessages || c.kind is ActivateScheduled
            || c.kind is ExpireDuplicateHistory,
    ensures
        !tells_of_the_clock(apply::command_step(m, c, batch)),
{
    broadcast use group_silence;

}

proof fn browsing_and_cancelling_are_silent(m: Contents, c: CommandView, batch: Seq<OpView>)
    requires
        c.kind is Peek || c.kind is CancelScheduled,
    ensures
        !tells_of_the_clock(apply::command_step(m, c, batch)),
{
    broadcast use group_silence;

}

/// What a command does on its own never tells of the clock.
proof fn steps_are_silent(m: Contents, c: CommandView, batch: Seq<OpView>)
    ensures
        !tells_of_the_clock(apply::command_step(m, c, batch)),
{
    match c.kind {
        KindView::CreateQueue { .. }
        | KindView::CreateTopic { .. }
        | KindView::CreateSubscription { .. }
        | KindView::CreateRule { .. }
        | KindView::DeleteRule { .. }
        | KindView::ListRules { .. } => {
            creating_is_silent(m, c, batch);
        },
        KindView::Send { .. } => {
            single_sends_are_silent(m, c, batch);
        },
        KindView::SendBatch { .. } => {
            batches_are_silent(m, c, batch);
        },
        KindView::Receive { .. } | KindView::ReceiveDeferred { .. } => {
            receives_are_silent(m, c, batch);
        },
        KindView::Complete { .. }
        | KindView::Abandon { .. }
        | KindView::Defer { .. }
        | KindView::DeadLetter { .. }
        | KindView::RenewLock { .. } => {
            settling_is_silent(m, c, batch);
        },
        KindView::AcceptSession { .. }
        | KindView::ReleaseSession { .. }
        | KindView::RenewSessionLock { .. }
        | KindView::SetSessionState { .. }
        | KindView::GetSessionState { .. }
        | KindView::ExpireSessionLocks { .. } => {
            sessions_are_silent(m, c, batch);
        },
        KindView::ExpireLocks { .. }
        | KindView::ExpireMessages { .. }
        | KindView::ActivateScheduled { .. }
        | KindView::ExpireDuplicateHistory { .. } => {
            sweeps_are_silent(m, c, batch);
        },
        KindView::Peek { .. } | KindView::CancelScheduled { .. } => {
            browsing_and_cancelling_are_silent(m, c, batch);
        },
    }
}

/// A command is told that the clock would run backwards only where it was stamped
/// before the last command that was applied, and is then told both times.
pub proof fn only_the_past_is_told_of_the_clock(m: Contents, c: CommandView)
    ensures
        tells_of_the_clock(apply::applied(m, c).0) ==> (machine::applied_time(m) matches Ok(
            last_applied,
        ) && c.issued_at.0 < last_applied.0 && apply::applied(m, c).0 == Err::<
            OutcomeView,
            ErrorView,
        >(ErrorView::ClockRegression { last_applied, proposed: c.issued_at })),
{
    steps_are_silent(m, c, Seq::empty());
}

} // verus!
