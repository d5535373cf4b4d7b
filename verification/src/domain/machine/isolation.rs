//! A command reaches no further than its own namespace.

use vstd::prelude::*;

use crate::bytes;
use crate::domain::codec;
use crate::domain::command::{CommandView, InputView, KindView};
use crate::domain::identifier;
use crate::domain::keys;
use crate::domain::keys::SEPARATOR;
use crate::domain::machine;
use crate::domain::machine::apply;
use crate::domain::machine::deferred;
use crate::domain::machine::delivery;
use crate::domain::machine::duplicate;
use crate::domain::machine::expiry;
use crate::domain::machine::history;
use crate::domain::machine::scheduling;
use crate::domain::machine::send;
use crate::domain::machine::sessions;
use crate::domain::machine::shared;
use crate::domain::machine::topic;
use crate::domain::machine::TIMER_SCAN_LIMIT;
use crate::domain::message;
use crate::domain::message::{
    DeadLetterReasonView, DeliveryOrigin, ReceiveMode, RecordView, SequenceNumber,
};
use crate::domain::order;
use crate::domain::queue;
use crate::domain::queue::{QueueConfig, QueueCounters};
use crate::domain::session::SessionView;
use crate::domain::time::Timestamp;
use crate::domain::topic::TopicConfig;
use crate::storage;
use crate::storage::{Contents, OpView};

verus! {

/// Whether a key belongs to a namespace: the namespace stands behind its tag.
#[verifier::opaque]
pub open spec fn of_namespace(namespace: Seq<char>, key: Seq<u8>) -> bool {
    &&& key.len() > 0
    &&& bytes::has_prefix(key.skip(1), bytes::utf8(namespace) + seq![SEPARATOR])
}

/// The key that a change touches.
pub open spec fn touched(op: OpView) -> Seq<u8> {
    match op {
        OpView::Put { key, .. } => key,
        OpView::Delete { key } => key,
    }
}

/// Whether every change touches a key of the namespace.
#[verifier::opaque]
pub open spec fn within(namespace: Seq<char>, ops: Seq<OpView>) -> bool {
    forall|i: int| 0 <= i < ops.len() ==> of_namespace(namespace, touched(#[trigger] ops[i]))
}

/// Whether the changes of a step, if it makes any, stay within the namespace.
pub open spec fn stays<A>(
    namespace: Seq<char>,
    step: Result<(Seq<OpView>, A), crate::domain::error::ErrorView>,
) -> bool {
    step matches Ok((changes, _)) ==> within(namespace, changes)
}

broadcast proof fn a_scope_is_of_its_namespace(tag: u8, namespace: Seq<char>, entity: Seq<char>)
    ensures
        #[trigger] of_namespace(namespace, keys::scope_key(tag, namespace, entity)),
{
    reveal(of_namespace);
    let key = keys::scope_key(tag, namespace, entity);
    let head = bytes::utf8(namespace) + seq![SEPARATOR];
    assert(key.skip(1).subrange(0, head.len() as int) =~= head);
}

broadcast proof fn what_follows_does_not_matter(
    namespace: Seq<char>,
    key: Seq<u8>,
    rest: Seq<u8>,
)
    requires
        of_namespace(namespace, key),
    ensures
        #[trigger] of_namespace(namespace, key + rest),
{
    reveal(of_namespace);
    let head = bytes::utf8(namespace) + seq![SEPARATOR];
    assert((key + rest).skip(1).subrange(0, head.len() as int) =~= key.skip(1).subrange(
        0,
        head.len() as int,
    ));
}

/// Whether a key tells of what was created: a queue, a topic or a subscription.
pub open spec fn of_catalog(key: Seq<u8>) -> bool {
    ||| key[0] == keys::TAG_QUEUE_CONFIG
    ||| key[0] == keys::TAG_TOPIC_CONFIG
    ||| key[0] == keys::TAG_TOPIC_SUBSCRIPTION
}

/// Whether a key belongs to a namespace, and neither to the counters of an entity nor
/// to what was created.
#[verifier::opaque]
spec fn spared(namespace: Seq<char>, key: Seq<u8>) -> bool {
    &&& of_namespace(namespace, key)
    &&& key[0] != keys::TAG_QUEUE_COUNTERS
    &&& !of_catalog(key)
}

/// Whether such a key does not stand for a scheduled message either.
#[verifier::opaque]
spec fn quiet(namespace: Seq<char>, key: Seq<u8>) -> bool {
    &&& spared(namespace, key)
    &&& key[0] != keys::TAG_SCHEDULED
}

/// Whether a change touches such a key, or removes a scheduled entry.
spec fn harmless(namespace: Seq<char>, op: OpView) -> bool {
    match op {
        OpView::Put { key, .. } => quiet(namespace, key),
        OpView::Delete { key } => spared(namespace, key),
    }
}

/// The counters of the entity a command names, as a change to them.
spec fn counting(c: CommandView, counters: QueueCounters) -> OpView {
    shared::put(
        keys::queue_counters_key(c.namespace, c.entity),
        codec::encoded::<QueueCounters>(counters),
    )
}

/// Whether counters give out no number and no token again.
spec fn are_ahead(m: Contents, c: CommandView, counters: QueueCounters) -> bool {
    &&& counters.next_sequence >= machine::next_number(m, c.namespace, c.entity)
    &&& counters.next_lock_token >= machine::next_token(m, c.namespace, c.entity)
}

/// Whether a change stores such counters.
spec fn counts_on(m: Contents, c: CommandView, op: OpView) -> bool {
    exists|counters: QueueCounters|
        op == #[trigger] counting(c, counters) && are_ahead(m, c, counters)
}

/// Whether a key is that of the subscription which a command creates, under a path
/// that no queue had.
pub open spec fn is_new_subscription(m: Contents, c: CommandView, key: Seq<u8>) -> bool {
    c.kind matches KindView::CreateSubscription { name, .. } && {
        &&& key == keys::topic_subscription_key(c.namespace, c.entity, name)
        &&& !m.dom().contains(
            keys::queue_config_key(
                c.namespace,
                identifier::subscription_path(c.entity, name),
            ),
        )
    }
}

/// Whether a change creates a queue, a topic or a subscription.
spec fn creates(m: Contents, c: CommandView, op: OpView) -> bool {
    op matches OpView::Put { key, .. } && {
        &&& of_namespace(c.namespace, key)
        &&& of_catalog(key)
        &&& key[0] == keys::TAG_TOPIC_SUBSCRIPTION ==> is_new_subscription(m, c, key)
    }
}

/// Whether the entity that a command names takes messages from senders: it is a queue,
/// and neither a dead-letter queue nor a subscription.
pub open spec fn takes_sends(m: Contents, c: CommandView) -> bool {
    &&& !identifier::names_dead_letter_queue(c.entity)
    &&& !topic::is_subscription(m, c.namespace, c.entity)
    &&& m.dom().contains(keys::queue_config_key(c.namespace, c.entity))
}

/// Whether a key is that of a scheduled message in the queue that a command names.
pub open spec fn is_schedule_of(c: CommandView, key: Seq<u8>) -> bool {
    exists|at: Timestamp, n: SequenceNumber|
        key == #[trigger] keys::scheduled_key(c.namespace, c.entity, at, n)
}

/// Whether a change schedules a message in the queue that a command names.
spec fn schedules(m: Contents, c: CommandView, op: OpView) -> bool {
    op matches OpView::Put { key, .. } && is_schedule_of(c, key) && takes_sends(m, c)
}

/// Whether every change touches a key of the command's namespace: counters only to
/// count on, what was created only to create more, and scheduled entries only to
/// schedule in the queue that the command names or to remove them.
#[verifier::opaque]
spec fn keeps_to(m: Contents, c: CommandView, ops: Seq<OpView>) -> bool {
    forall|i: int| 0 <= i < ops.len() ==> kept(m, c, #[trigger] ops[i])
}

spec fn kept(m: Contents, c: CommandView, op: OpView) -> bool {
    ||| harmless(c.namespace, op)
    ||| counts_on(m, c, op)
    ||| creates(m, c, op)
    ||| schedules(m, c, op)
}

/// Whether the changes of a step, if it makes any, do so.
spec fn keeps<A>(
    m: Contents,
    c: CommandView,
    step: Result<(Seq<OpView>, A), crate::domain::error::ErrorView>,
) -> bool {
    step matches Ok((changes, _)) ==> keeps_to(m, c, changes)
}

broadcast proof fn other_scopes_are_spared(tag: u8, namespace: Seq<char>, entity: Seq<char>)
    requires
        tag != keys::TAG_QUEUE_COUNTERS,
        tag != keys::TAG_QUEUE_CONFIG,
        tag != keys::TAG_TOPIC_CONFIG,
        tag != keys::TAG_TOPIC_SUBSCRIPTION,
    ensures
        #[trigger] spared(namespace, keys::scope_key(tag, namespace, entity)),
{
    reveal(spared);
    a_scope_is_of_its_namespace(tag, namespace, entity);
}

broadcast proof fn most_scopes_are_quiet(tag: u8, namespace: Seq<char>, entity: Seq<char>)
    requires
        tag != keys::TAG_QUEUE_COUNTERS,
        tag != keys::TAG_QUEUE_CONFIG,
        tag != keys::TAG_TOPIC_CONFIG,
        tag != keys::TAG_TOPIC_SUBSCRIPTION,
        tag != keys::TAG_SCHEDULED,
    ensures
        #[trigger] quiet(namespace, keys::scope_key(tag, namespace, entity)),
{
    reveal(quiet);
    other_scopes_are_spared(tag, namespace, entity);
}

broadcast proof fn what_follows_is_quiet_too(namespace: Seq<char>, key: Seq<u8>, rest: Seq<u8>)
    requires
        quiet(namespace, key),
    ensures
        #[trigger] quiet(namespace, key + rest),
{
    reveal(quiet);
    reveal(spared);
    reveal(of_namespace);
    what_follows_spares_it_too(namespace, key, rest);
}

broadcast proof fn what_follows_spares_it_too(namespace: Seq<char>, key: Seq<u8>, rest: Seq<u8>)
    requires
        spared(namespace, key),
    ensures
        #[trigger] spared(namespace, key + rest),
{
    reveal(spared);
    reveal(of_namespace);
    what_follows_does_not_matter(namespace, key, rest);
}

broadcast proof fn one_more_is_kept(m: Contents, c: CommandView, ops: Seq<OpView>, op: OpView)
    requires
        keeps_to(m, c, ops),
        harmless(c.namespace, op),
    ensures
        #[trigger] keeps_to(m, c, ops.push(op)),
{
    reveal(keeps_to);
}

broadcast proof fn one_more_creation_is_kept(
    m: Contents,
    c: CommandView,
    ops: Seq<OpView>,
    op: OpView,
)
    requires
        keeps_to(m, c, ops),
        creates(m, c, op),
    ensures
        #[trigger] keeps_to(m, c, ops.push(op)),
{
    reveal(keeps_to);
}

proof fn scheduling_is_kept(
    m: Contents,
    c: CommandView,
    ops: Seq<OpView>,
    at: Timestamp,
    n: SequenceNumber,
)
    requires
        keeps_to(m, c, ops),
        takes_sends(m, c),
    ensures
        keeps_to(
            m,
            c,
            ops.push(shared::mark(keys::scheduled_key(c.namespace, c.entity, at, n))),
        ),
{
    reveal(keeps_to);
    assert(is_schedule_of(c, keys::scheduled_key(c.namespace, c.entity, at, n)));
}

proof fn counting_on_is_kept(
    m: Contents,
    c: CommandView,
    ops: Seq<OpView>,
    counters: QueueCounters,
)
    requires
        keeps_to(m, c, ops),
        are_ahead(m, c, counters),
    ensures
        keeps_to(m, c, ops.push(counting(c, counters))),
{
    reveal(keeps_to);
    assert(counts_on(m, c, counting(c, counters)));
}

broadcast group group_kept {
    other_scopes_are_spared,
    most_scopes_are_quiet,
    what_follows_spares_it_too,
    what_follows_is_quiet_too,
    one_more_is_kept,
}

/// What lies below a spared prefix is spared.
proof fn scanned_keys_are_spared(
    m: Contents,
    namespace: Seq<char>,
    prefix: Seq<u8>,
    limit: usize,
)
    requires
        m.dom().finite(),
        spared(namespace, prefix),
    ensures
        forall|i: int|
            0 <= i < storage::scan(m, prefix, prefix, limit).len() ==> spared(
                namespace,
                (#[trigger] storage::scan(m, prefix, prefix, limit)[i]).0,
            ),
{
    storage::walk_lists_the_selected_keys(m, prefix, prefix);
    let walked = storage::walk(m, prefix, prefix);
    let entries = storage::scan(m, prefix, prefix, limit);
    assert forall|i: int| 0 <= i < entries.len() implies spared(
        namespace,
        (#[trigger] entries[i]).0,
    ) by {
        let key = walked[i];
        assert(walked.contains(key));
        assert(storage::selected(m, prefix, prefix).contains(key));
        assert(key =~= prefix + key.skip(prefix.len() as int)) by {
            assert(key.subrange(0, prefix.len() as int) =~= prefix);
        }
        what_follows_spares_it_too(namespace, prefix, key.skip(prefix.len() as int));
    }
}

// ---- one step at a time ----------------------------------------------------

proof fn dead_lettering_stays(
    m: Contents,
    c: CommandView,
    record: RecordView,
    reason: DeadLetterReasonView,
    description: Seq<char>,
    batch: Seq<OpView>,
)
    requires
        keeps_to(m, c, batch),
    ensures
        shared::dead_lettered(c, record, reason, description, batch) matches Ok(changes)
            ==> keeps_to(m, c, changes),
{
    broadcast use group_kept;

}

proof fn returning_stays(
    m: Contents,
    c: CommandView,
    record: RecordView,
    locked_until: Timestamp,
    origin: DeliveryOrigin,
    batch: Seq<OpView>,
)
    requires
        keeps_to(m, c, batch),
    ensures
        shared::returned(c, record, locked_until, origin, batch) matches Ok(changes)
            ==> keeps_to(m, c, changes),
{
    broadcast use group_kept;

}

proof fn handing_out_stays(
    m: Contents,
    c: CommandView,
    config: QueueConfig,
    mode: ReceiveMode,
    asked: Option<u64>,
    sequence: SequenceNumber,
    record: RecordView,
    batch: Seq<OpView>,
)
    requires
        keeps_to(m, c, batch),
    ensures
        keeps(
            m,
            c,
            delivery::handed_out(m, c, config, mode, asked, sequence, record, batch),
        ),
{
    broadcast use group_kept;

    if let Ok(counters) = machine::counters_of(m, c) {
        let next = QueueCounters {
            next_lock_token: queue::bump(counters.next_lock_token),
            ..counters
        };
        assert forall|ops: Seq<OpView>| keeps_to(m, c, ops) implies #[trigger] keeps_to(
            m,
            c,
            ops.push(counting(c, next)),
        ) by {
            counting_on_is_kept(m, c, ops, next);
        }
    }
}

proof fn receiving_stays(
    m: Contents,
    c: CommandView,
    config: QueueConfig,
    mode: ReceiveMode,
    asked: Option<u64>,
    ready: Seq<(Seq<u8>, Seq<u8>)>,
    batch: Seq<OpView>,
)
    requires
        keeps_to(m, c, batch),
    ensures
        keeps(m, c, delivery::receive_from(m, c, config, mode, asked, ready, batch)),
    decreases ready.len(),
{
    if ready.len() > 0 {
        if let Some(sequence) = keys::last_sequence(ready[0].0) {
            if let Ok(Some(record)) = machine::message_at(m, c.namespace, c.entity, sequence) {
                if message::expired(record, c.issued_at) {
                    dead_lettering_stays(
                        m,
                        c,
                        record,
                        DeadLetterReasonView::TimeToLiveExpired,
                        "the message exceeded its time to live"@,
                        batch,
                    );
                    if let Ok(longer) = shared::lifetime_over(c, record, batch) {
                        receiving_stays(m, c, config, mode, asked, ready.skip(1), longer);
                    }
                } else {
                    handing_out_stays(m, c, config, mode, asked, sequence, record, batch);
                }
            }
        }
    }
}

proof fn settling_stays(m: Contents, c: CommandView, batch: Seq<OpView>)
    requires
        keeps_to(m, c, batch),
        c.kind is Complete || c.kind is Abandon || c.kind is Defer || c.kind is DeadLetter
            || c.kind is RenewLock,
    ensures
        keeps(m, c, apply::command_step(m, c, batch)),
{
    broadcast use group_kept;

    match c.kind {
        KindView::Abandon { sequence, lock_token, replacement_envelope } => {
            if let Ok(config) = machine::config_of(m, c) {
                if let Ok((record, locked_until, origin)) = shared::held_lock(
                    m,
                    c,
                    sequence,
                    lock_token,
                ) {
                    if let Ok(record) = shared::with_envelope(config, record, replacement_envelope) {
                        dead_lettering_stays(
                            m,
                            c,
                            record,
                            DeadLetterReasonView::TimeToLiveExpired,
                            "the message exceeded its time to live"@,
                            batch,
                        );
                        dead_lettering_stays(
                            m,
                            c,
                            record,
                            DeadLetterReasonView::MaxDeliveryCountExceeded,
                            "the message reached its maximum delivery count"@,
                            batch,
                        );
                        returning_stays(m, c, record, locked_until, origin, batch);
                    }
                }
            }
        },
        KindView::DeadLetter {
            sequence,
            lock_token,
            reason,
            description,
            replacement_envelope,
        } => {
            if let Ok(config) = machine::config_of(m, c) {
                if let Ok((record, _, _)) = shared::held_lock(m, c, sequence, lock_token) {
                    if let Ok(record) = shared::with_envelope(config, record, replacement_envelope) {
                        dead_lettering_stays(
                            m,
                            c,
                            record,
                            DeadLetterReasonView::Application(reason),
                            description,
                            batch,
                        );
                    }
                }
            }
        },
        _ => {},
    }
}

proof fn deferred_handing_out_stays(
    m: Contents,
    c: CommandView,
    config: QueueConfig,
    mode: ReceiveMode,
    asked: Option<u64>,
    record: RecordView,
    state: deferred::DeferredState,
)
    requires
        keeps_to(m, c, state.0),
    ensures
        deferred::deferred_handed_out(c, config, mode, asked, record, state) matches Ok(next)
            ==> keeps_to(m, c, next.0) && next.2 >= state.2,
{
    broadcast use group_kept;

    dead_lettering_stays(
        m,
        c,
        record,
        DeadLetterReasonView::TimeToLiveExpired,
        "the deferred message exceeded its time to live"@,
        state.0,
    );
}

proof fn all_deferred_stays(
    m: Contents,
    c: CommandView,
    config: QueueConfig,
    mode: ReceiveMode,
    asked: Option<u64>,
    records: Seq<RecordView>,
    i: int,
    state: deferred::DeferredState,
)
    requires
        keeps_to(m, c, state.0),
    ensures
        deferred::all_handed_out(c, config, mode, asked, records, i, state) matches Ok(next)
            ==> keeps_to(m, c, next.0) && next.2 >= state.2,
    decreases records.len() - i,
{
    if i < records.len() {
        deferred_handing_out_stays(m, c, config, mode, asked, records[i], state);
        if let Ok(next) = deferred::deferred_handed_out(
            c,
            config,
            mode,
            asked,
            records[i],
            state,
        ) {
            all_deferred_stays(m, c, config, mode, asked, records, i + 1, next);
        }
    }
}

proof fn receiving_deferred_stays(
    m: Contents,
    c: CommandView,
    config: QueueConfig,
    sequences: Seq<SequenceNumber>,
    mode: ReceiveMode,
    asked: Option<u64>,
    expected: Option<Seq<char>>,
    batch: Seq<OpView>,
)
    requires
        keeps_to(m, c, batch),
    ensures
        keeps(
            m,
            c,
            deferred::deferred_received(
                m,
                c,
                config,
                sequences,
                mode,
                asked,
                expected,
                batch,
            ),
        ),
{
    broadcast use group_kept;

    if let Ok(records) = deferred::resolved(m, c, sequences, expected, 0, Seq::empty()) {
        if let Ok(counters) = machine::counters_of(m, c) {
            let state: deferred::DeferredState = (batch, Seq::empty(), counters.next_lock_token);
            all_deferred_stays(m, c, config, mode, asked, records, 0, state);
            if let Ok(next) = deferred::all_handed_out(
                c,
                config,
                mode,
                asked,
                records,
                0,
                state,
            ) {
                counting_on_is_kept(
                    m,
                    c,
                    next.0,
                    QueueCounters { next_lock_token: next.2, ..counters },
                );
            }
        }
    }
}

proof fn judging_stays(
    m: Contents,
    c: CommandView,
    config: QueueConfig,
    inputs: Seq<InputView>,
    i: int,
    state: duplicate::HistoryState,
)
    requires
        keeps_to(m, c, state.0),
    ensures
        duplicate::all_judged(m, c, config, inputs, i, state) matches Ok(next) ==> keeps_to(
            m,
            c,
            next.0,
        ),
    decreases inputs.len() - i,
{
    broadcast use group_kept;

    if i < inputs.len() {
        if let Ok(next) = duplicate::judged(m, c, config, inputs, i, state) {
            judging_stays(m, c, config, inputs, i + 1, next);
        }
    }
}

proof fn storing_stays(
    m: Contents,
    c: CommandView,
    config: QueueConfig,
    inputs: Seq<InputView>,
    stored: Seq<bool>,
    i: int,
    state: send::SendState,
)
    requires
        keeps_to(m, c, state.0),
        takes_sends(m, c),
    ensures
        keeps_to(m, c, send::stored_from(c, config, inputs, stored, i, state).0),
        send::stored_from(c, config, inputs, stored, i, state).1 >= state.1,
    decreases inputs.len() - i,
{
    broadcast use group_kept;

    if i < inputs.len() {
        let record = send::new_record(
            c,
            inputs[i],
            SequenceNumber(state.1),
            send::effective_lifetime(
                inputs[i].time_to_live_millis,
                config.default_time_to_live_millis,
            ),
        );
        if let Some(at) = record.scheduled_enqueue_at {
            let held = state.0.push(
                shared::put(
                    keys::message_key(c.namespace, c.entity, record.sequence),
                    codec::encoded::<message::MessageRecord>(record),
                ),
            );
            scheduling_is_kept(m, c, held, at, record.sequence);
        }
        assert(keeps_to(m, c, send::stored_changes(c, record, state.0)));
        let changes = if stored[i] {
            send::stored_changes(c, record, state.0)
        } else {
            state.0
        };
        storing_stays(
            m,
            c,
            config,
            inputs,
            stored,
            i + 1,
            (changes, queue::bump(state.1)),
        );
    }
}

proof fn persisting_stays(m: Contents, c: CommandView, inputs: Seq<InputView>, batch: Seq<OpView>)
    requires
        keeps_to(m, c, batch),
    ensures
        keeps(m, c, send::persisted(m, c, inputs, batch)),
{
    broadcast use group_kept;

    if let Ok(config) = machine::config_of(m, c) {
        judging_stays(m, c, config, inputs, 0, (batch, Seq::empty()));
        if let Ok((staged, stored)) = duplicate::history(m, c, config, inputs, batch) {
            if let (Ok(counters), true) = (machine::counters_of(m, c), takes_sends(m, c)) {
                let start: send::SendState = (staged, counters.next_sequence);
                storing_stays(m, c, config, inputs, stored, 0, start);
                let sent = send::stored_from(c, config, inputs, stored, 0, start);
                counting_on_is_kept(
                    m,
                    c,
                    sent.0,
                    QueueCounters { next_sequence: sent.1, ..counters },
                );
            }
        }
    }
}

proof fn fanning_out_stays(
    m: Contents,
    c: CommandView,
    topic_config: TopicConfig,
    input: InputView,
    sequence: SequenceNumber,
    properties: crate::domain::rule::PropertiesView,
    subscribers: Seq<topic::Subscriber>,
    i: int,
    state: topic::FanoutState,
)
    requires
        keeps_to(m, c, state.0),
    ensures
        keeps_to(
            m,
            c,
            topic::fan_out(
                c,
                topic_config,
                input,
                sequence,
                properties,
                subscribers,
                i,
                state,
            ).0,
        ),
    decreases subscribers.len() - i,
{
    broadcast use group_kept;

    if i < subscribers.len() {
        let copy = topic::copy_of(c, input, sequence, topic_config, subscribers[i].config);
        assert(keeps_to(
            m,
            c,
            topic::copy_changes(c, subscribers[i].path, copy, state.0),
        ));
        let next = if topic::any_selects(subscribers[i].rules, properties) {
            (
                topic::copy_changes(c, subscribers[i].path, copy, state.0),
                state.1.update(i, true),
            )
        } else {
            state
        };
        fanning_out_stays(
            m,
            c,
            topic_config,
            input,
            sequence,
            properties,
            subscribers,
            i + 1,
            next,
        );
    }
}

proof fn publishing_from_stays(
    m: Contents,
    c: CommandView,
    topic_config: TopicConfig,
    inputs: Seq<InputView>,
    subscribers: Seq<topic::Subscriber>,
    i: int,
    state: topic::PublishState,
)
    requires
        keeps_to(m, c, state.0.0),
    ensures
        topic::publish_from(c, topic_config, inputs, subscribers, i, state) matches Ok(next)
            ==> keeps_to(m, c, next.0.0) && next.1 >= state.1,
    decreases inputs.len() - i,
{
    if i < inputs.len() {
        if let Ok(properties) = crate::domain::rule::canonical_view(topic::inspected(inputs[i])) {
            fanning_out_stays(
                m,
                c,
                topic_config,
                inputs[i],
                SequenceNumber(state.1),
                properties,
                subscribers,
                0,
                state.0,
            );
            publishing_from_stays(
                m,
                c,
                topic_config,
                inputs,
                subscribers,
                i + 1,
                (
                    topic::fan_out(
                        c,
                        topic_config,
                        inputs[i],
                        SequenceNumber(state.1),
                        properties,
                        subscribers,
                        0,
                        state.0,
                    ),
                    queue::bump(state.1),
                ),
            );
        }
    }
}

proof fn publishing_stays(m: Contents, c: CommandView, inputs: Seq<InputView>, batch: Seq<OpView>)
    requires
        keeps_to(m, c, batch),
    ensures
        keeps(m, c, topic::publish_step(m, c, inputs, batch)),
{
    broadcast use group_kept;

    if let Ok(topic_config) = topic::topic_of(m, c) {
        if let Ok(paths) = topic::subscriptions_of(
            m,
            c.namespace,
            c.entity,
            (crate::domain::topic::MAX_TOPIC_SUBSCRIPTIONS + 1) as usize,
        ) {
            if let Ok(subscribers) = topic::subscribers_from(
                m,
                c.namespace,
                paths,
                0,
                Seq::empty(),
            ) {
                if let Ok(counters) = machine::counters_of(m, c) {
                    let start: topic::PublishState = (
                        (batch, Seq::new(paths.len(), |i: int| false)),
                        counters.next_sequence,
                    );
                    publishing_from_stays(m, c, topic_config, inputs, subscribers, 0, start);
                    if let Ok(next) = topic::publish_from(
                        c,
                        topic_config,
                        inputs,
                        subscribers,
                        0,
                        start,
                    ) {
                        counting_on_is_kept(
                            m,
                            c,
                            next.0.0,
                            QueueCounters { next_sequence: next.1, ..counters },
                        );
                    }
                }
            }
        }
    }
}

proof fn cancelling_stays(
    m: Contents,
    c: CommandView,
    sequences: Seq<SequenceNumber>,
    due: Seq<Timestamp>,
    n: int,
    batch: Seq<OpView>,
)
    requires
        keeps_to(m, c, batch),
    ensures
        keeps_to(m, c, scheduling::removed(c, sequences, due, n, batch)),
    decreases n,
{
    broadcast use group_kept;

    if n > 0 {
        cancelling_stays(m, c, sequences, due, n - 1, batch);
    }
}

proof fn activating_stays(
    m: Contents,
    c: CommandView,
    due: Seq<(Seq<u8>, Seq<u8>)>,
    state: scheduling::ActivationState,
)
    requires
        keeps_to(m, c, state.0),
        forall|i: int| 0 <= i < due.len() ==> spared(c.namespace, (#[trigger] due[i]).0),
    ensures
        scheduling::activate_due(m, c, due, state) matches Ok(next) ==> keeps_to(m, c, next.0)
            && next.1 >= state.1,
    decreases due.len(),
{
    broadcast use group_kept;

    if due.len() > 0 {
        assert(spared(c.namespace, due[0].0));
        if let Some((enqueue_at, placeholder)) = keys::last_deadline(due[0].0) {
            if let Ok(record) = scheduling::due_record(m, c, enqueue_at, placeholder) {
                let active = scheduling::active_record(
                    record,
                    enqueue_at,
                    SequenceNumber(state.1),
                    c.issued_at,
                );
                let rest = due.skip(1);
                assert forall|i: int| 0 <= i < rest.len() implies spared(
                    c.namespace,
                    (#[trigger] rest[i]).0,
                ) by {
                    assert(rest[i] == due[i + 1]);
                }
                activating_stays(
                    m,
                    c,
                    rest,
                    (
                        scheduling::activated_changes(
                            c,
                            due[0].0,
                            placeholder,
                            active,
                            state.0,
                        ),
                        queue::bump(state.1),
                        state.2 + 1,
                    ),
                );
            }
        }
    }
}

proof fn undoing_stays(
    m: Contents,
    c: CommandView,
    config: QueueConfig,
    locks: Seq<(Seq<u8>, Seq<u8>)>,
    batch: Seq<OpView>,
    returned: nat,
    dead: nat,
)
    requires
        keeps_to(m, c, batch),
    ensures
        keeps(m, c, expiry::undo_elapsed(m, c, config, locks, batch, returned, dead)),
    decreases locks.len(),
{
    if locks.len() > 0 {
        if let Some((locked_until, sequence)) = keys::last_deadline(locks[0].0) {
            if let Ok(Some(record)) = machine::message_at(m, c.namespace, c.entity, sequence) {
                if let message::MessageState::Locked { origin, .. } = record.state {
                    let rest = locks.skip(1);
                    dead_lettering_stays(
                        m,
                        c,
                        record,
                        DeadLetterReasonView::TimeToLiveExpired,
                        "the message exceeded its time to live"@,
                        batch,
                    );
                    dead_lettering_stays(
                        m,
                        c,
                        record,
                        DeadLetterReasonView::MaxDeliveryCountExceeded,
                        "the message reached its maximum delivery count"@,
                        batch,
                    );
                    returning_stays(m, c, record, locked_until, origin, batch);
                    if let Ok(longer) = shared::lifetime_over(c, record, batch) {
                        undoing_stays(m, c, config, rest, longer, returned, dead + 1);
                    }
                    if let Ok(longer) = shared::deliveries_over(c, record, batch) {
                        undoing_stays(m, c, config, rest, longer, returned, dead + 1);
                    }
                    if let Ok(longer) = shared::returned(c, record, locked_until, origin, batch) {
                        undoing_stays(m, c, config, rest, longer, returned + 1, dead);
                    }
                }
            }
        }
    }
}

proof fn ending_stays(
    m: Contents,
    c: CommandView,
    expiring: Seq<(Seq<u8>, Seq<u8>)>,
    batch: Seq<OpView>,
    dead: nat,
)
    requires
        keeps_to(m, c, batch),
        forall|i: int|
            0 <= i < expiring.len() ==> spared(c.namespace, (#[trigger] expiring[i]).0),
    ensures
        keeps(m, c, expiry::end_elapsed(m, c, expiring, batch, dead)),
    decreases expiring.len(),
{
    broadcast use group_kept;

    if expiring.len() > 0 {
        assert(spared(c.namespace, expiring[0].0));
        let rest = expiring.skip(1);
        assert forall|i: int| 0 <= i < rest.len() implies spared(
            c.namespace,
            (#[trigger] rest[i]).0,
        ) by {
            assert(rest[i] == expiring[i + 1]);
        }
        if let Some((expires_at, sequence)) = keys::last_deadline(expiring[0].0) {
            if let Ok(Some(record)) = machine::message_at(m, c.namespace, c.entity, sequence) {
                dead_lettering_stays(
                    m,
                    c,
                    record,
                    DeadLetterReasonView::TimeToLiveExpired,
                    "the message exceeded its time to live"@,
                    batch,
                );
                if let Ok(longer) = shared::lifetime_over(c, record, batch) {
                    ending_stays(m, c, rest, longer, dead + 1);
                }
                ending_stays(m, c, rest, batch.push(shared::drop_key(expiring[0].0)), dead);
            }
        }
    }
}

proof fn forgetting_stays(
    m: Contents,
    c: CommandView,
    expiring: Seq<(Seq<u8>, Seq<u8>)>,
    batch: Seq<OpView>,
    forgotten: nat,
)
    requires
        keeps_to(m, c, batch),
        forall|i: int|
            0 <= i < expiring.len() ==> spared(c.namespace, (#[trigger] expiring[i]).0),
    ensures
        keeps(m, c, duplicate::forget_elapsed(m, c, expiring, batch, forgotten)),
    decreases expiring.len(),
{
    broadcast use group_kept;

    if expiring.len() > 0 {
        assert(spared(c.namespace, expiring[0].0));
        let rest = expiring.skip(1);
        assert forall|i: int| 0 <= i < rest.len() implies spared(
            c.namespace,
            (#[trigger] rest[i]).0,
        ) by {
            assert(rest[i] == expiring[i + 1]);
        }
        let prefix = keys::duplicate_expiry_prefix_key(c.namespace, c.entity);
        if let Some((deadline, id)) = keys::deadline_and_text(prefix, expiring[0].0) {
            if let Ok(current) = duplicate::history_at(m, c.namespace, c.entity, id) {
                let looked_up = if current == Some(deadline) {
                    batch.push(
                        shared::drop_key(keys::duplicate_id_key(c.namespace, c.entity, id)),
                    )
                } else {
                    batch
                };
                forgetting_stays(
                    m,
                    c,
                    rest,
                    looked_up.push(shared::drop_key(expiring[0].0)),
                    forgotten + 1,
                );
            }
        }
    }
}

proof fn locking_a_session_stays(
    m: Contents,
    c: CommandView,
    id: Seq<char>,
    record: SessionView,
    locked_until: Timestamp,
    batch: Seq<OpView>,
)
    requires
        keeps_to(m, c, batch),
    ensures
        keeps(m, c, sessions::session_locked(m, c, id, record, locked_until, batch)),
{
    broadcast use group_kept;

    if let Ok((changes, _)) = sessions::session_locked(m, c, id, record, locked_until, batch) {
        let counters = machine::counters_of(m, c)->Ok_0;
        let next = QueueCounters {
            next_lock_token: queue::bump(counters.next_lock_token),
            ..counters
        };
        let cleared = match record.lock {
            Some(previous) => batch.push(
                shared::drop_key(
                    keys::session_lock_key(c.namespace, c.entity, previous.locked_until, id),
                ),
            ),
            None => batch,
        };
        assert(keeps_to(m, c, cleared));
        assert(changes.last() == counting(c, next));
        assert(keeps_to(m, c, changes.drop_last())) by {
            let before = cleared.push(changes[cleared.len() as int]);
            assert(changes.drop_last() =~= before.push(changes[before.len() as int]));
        }
        counting_on_is_kept(m, c, changes.drop_last(), next);
        assert(changes.drop_last().push(counting(c, next)) =~= changes);
    }
}

proof fn accepting_stays(
    m: Contents,
    c: CommandView,
    locked_until: Timestamp,
    start: Seq<u8>,
    n: nat,
    batch: Seq<OpView>,
)
    requires
        keeps_to(m, c, batch),
    ensures
        keeps(m, c, sessions::accept_from(m, c, locked_until, start, n, batch)),
    decreases n,
{
    broadcast use group_kept;

    let prefix = keys::entity_session_ready_prefix_key(c.namespace, c.entity);
    let found = storage::scan(m, prefix, start, 1);
    if n > 0 && found.len() > 0 {
        if let Some(text) = keys::session_after(prefix, found[0].0) {
            if let Ok(id) = identifier::session_id_of(text) {
                if let Ok(record) = machine::session_of(m, c, id) {
                    locking_a_session_stays(m, c, id, record, locked_until, batch);
                }
                accepting_stays(
                    m,
                    c,
                    locked_until,
                    keys::after_session_ready_key(c.namespace, c.entity, id),
                    (n - 1) as nat,
                    batch,
                );
            }
        }
    }
}

proof fn releasing_elapsed_stays(
    m: Contents,
    c: CommandView,
    locks: Seq<(Seq<u8>, Seq<u8>)>,
    batch: Seq<OpView>,
    released: nat,
)
    requires
        keeps_to(m, c, batch),
    ensures
        keeps(m, c, sessions::release_elapsed(m, c, locks, batch, released)),
    decreases locks.len(),
{
    broadcast use group_kept;

    if locks.len() > 0 {
        let prefix = keys::session_lock_prefix_key(c.namespace, c.entity);
        if let Some((locked_until, text)) = keys::deadline_and_text(prefix, locks[0].0) {
            if let Ok(id) = identifier::session_id_of(text) {
                if let Ok(record) = machine::session_of(m, c, id) {
                    releasing_elapsed_stays(
                        m,
                        c,
                        locks.skip(1),
                        shared::unlocked_session(c, id, record, batch),
                        released + 1,
                    );
                }
            }
        }
    }
}

// ---- a whole command -------------------------------------------------------

proof fn catalog_stays(m: Contents, c: CommandView, batch: Seq<OpView>)
    requires
        keeps_to(m, c, batch),
        c.kind is CreateQueue || c.kind is CreateTopic || c.kind is CreateSubscription || c.kind
            is CreateRule || c.kind is DeleteRule || c.kind is ListRules,
    ensures
        keeps(m, c, apply::command_step(m, c, batch)),
{
    broadcast use {
        group_kept,
        one_more_creation_is_kept,
        a_scope_is_of_its_namespace,
        what_follows_does_not_matter,
    };

}

proof fn sending_stays(m: Contents, c: CommandView, batch: Seq<OpView>)
    requires
        keeps_to(m, c, batch),
        c.kind is Send || c.kind is SendBatch,
    ensures
        keeps(m, c, apply::command_step(m, c, batch)),
{
    match c.kind {
        KindView::Send {
            message_id,
            body,
            time_to_live_millis,
            session_id,
            scheduled_enqueue_at,
            envelope,
        } => {
            let input = InputView {
                message_id,
                body,
                time_to_live_millis,
                session_id,
                scheduled_enqueue_at,
                envelope,
            };
            publishing_stays(m, c, seq![input], batch);
            persisting_stays(m, c, seq![input], batch);
        },
        KindView::SendBatch { messages } => {
            publishing_stays(m, c, messages, batch);
            persisting_stays(m, c, messages, batch);
        },
        _ => {},
    }
}

proof fn session_steps_stay(m: Contents, c: CommandView, batch: Seq<OpView>)
    requires
        keeps_to(m, c, batch),
        c.kind is AcceptSession || c.kind is ReleaseSession || c.kind is RenewSessionLock || c.kind
            is SetSessionState || c.kind is GetSessionState || c.kind is ExpireSessionLocks,
    ensures
        keeps(m, c, apply::command_step(m, c, batch)),
{
    broadcast use group_kept;

    match c.kind {
        KindView::AcceptSession { session_id, lock_duration_millis } => {
            if let Ok(config) = machine::config_of(m, c) {
                let locked_until = crate::domain::time::later(
                    c.issued_at,
                    delivery::lock_millis(config, lock_duration_millis),
                );
                if let Some(id) = session_id {
                    if let Ok(record) = machine::session_of(m, c, id) {
                        locking_a_session_stays(m, c, id, record, locked_until, batch);
                    }
                }
                accepting_stays(
                    m,
                    c,
                    locked_until,
                    keys::entity_session_ready_prefix_key(c.namespace, c.entity),
                    machine::MAX_SESSION_SCAN as nat,
                    batch,
                );
            }
        },
        KindView::ExpireSessionLocks => {
            let prefix = keys::session_lock_prefix_key(c.namespace, c.entity);
            releasing_elapsed_stays(
                m,
                c,
                storage::scan(m, prefix, prefix, TIMER_SCAN_LIMIT),
                batch,
                0,
            );
        },
        _ => {},
    }
}

proof fn sweeps_stay(m: Contents, c: CommandView, batch: Seq<OpView>)
    requires
        m.dom().finite(),
        keeps_to(m, c, batch),
        c.kind is ExpireLocks || c.kind is ExpireMessages || c.kind is ActivateScheduled || c.kind
            is ExpireDuplicateHistory || c.kind is CancelScheduled,
    ensures
        keeps(m, c, apply::command_step(m, c, batch)),
{
    broadcast use group_kept;

    match c.kind {
        KindView::ExpireLocks => {
            if let Ok(config) = machine::config_of(m, c) {
                let prefix = keys::lock_prefix_key(c.namespace, c.entity);
                let locks = storage::scan(m, prefix, prefix, TIMER_SCAN_LIMIT);
                undoing_stays(m, c, config, locks, batch, 0, 0);
            }
        },
        KindView::ExpireMessages => {
            let prefix = keys::expiry_prefix_key(c.namespace, c.entity);
            scanned_keys_are_spared(m, c.namespace, prefix, TIMER_SCAN_LIMIT);
            ending_stays(m, c, storage::scan(m, prefix, prefix, TIMER_SCAN_LIMIT), batch, 0);
        },
        KindView::ActivateScheduled => {
            if let Ok(counters) = machine::counters_of(m, c) {
                let prefix = keys::scheduled_prefix_key(c.namespace, c.entity);
                let due = storage::scan(m, prefix, prefix, TIMER_SCAN_LIMIT);
                scanned_keys_are_spared(m, c.namespace, prefix, TIMER_SCAN_LIMIT);
                let start: scheduling::ActivationState = (batch, counters.next_sequence, 0);
                activating_stays(m, c, due, start);
                if let Ok(next) = scheduling::activate_due(m, c, due, start) {
                    counting_on_is_kept(
                        m,
                        c,
                        next.0,
                        QueueCounters { next_sequence: next.1, ..counters },
                    );
                }
            }
        },
        KindView::ExpireDuplicateHistory => {
            let prefix = keys::duplicate_expiry_prefix_key(c.namespace, c.entity);
            let expiring = storage::scan(m, prefix, prefix, TIMER_SCAN_LIMIT);
            scanned_keys_are_spared(m, c.namespace, prefix, TIMER_SCAN_LIMIT);
            forgetting_stays(m, c, expiring, batch, 0);
        },
        KindView::CancelScheduled { sequences } => {
            if let Ok(due) = scheduling::due_times(m, c, sequences, 0, Seq::empty()) {
                cancelling_stays(m, c, sequences, due, sequences.len() as int, batch);
            }
        },
        _ => {},
    }
}

proof fn deliveries_stay(m: Contents, c: CommandView, batch: Seq<OpView>)
    requires
        keeps_to(m, c, batch),
        c.kind is Peek || c.kind is Receive || c.kind is ReceiveDeferred,
    ensures
        keeps(m, c, apply::command_step(m, c, batch)),
{
    match c.kind {
        KindView::Receive { mode, lock_duration_millis, session } => {
            if let Ok(config) = delivery::receivable(m, c) {
                let prefix = match session {
                    Some(hold) => keys::session_ready_prefix_key(
                        c.namespace,
                        c.entity,
                        hold.session_id,
                    ),
                    None => keys::ready_prefix_key(c.namespace, c.entity),
                };
                receiving_stays(
                    m,
                    c,
                    config,
                    mode,
                    lock_duration_millis,
                    storage::scan(m, prefix, prefix, machine::MAX_RECEIVE_SCAN),
                    batch,
                );
            }
        },
        KindView::ReceiveDeferred { sequences, mode, lock_duration_millis, session } => {
            if let Ok(config) = machine::config_of(m, c) {
                let expected = match session {
                    Some(hold) => Some(hold.session_id),
                    None => None,
                };
                receiving_deferred_stays(
                    m,
                    c,
                    config,
                    sequences,
                    mode,
                    lock_duration_millis,
                    expected,
                    batch,
                );
            }
        },
        _ => {},
    }
}

proof fn every_change_is_kept(m: Contents, c: CommandView)
    requires
        m.dom().finite(),
    ensures
        keeps(m, c, apply::command_step(m, c, Seq::empty())),
{
    let batch: Seq<OpView> = Seq::empty();
    assert(keeps_to(m, c, batch)) by {
        reveal(keeps_to);
    }
    match c.kind {
        KindView::CreateQueue { .. } | KindView::CreateTopic { .. } | KindView::CreateSubscription {
            ..
        } | KindView::CreateRule { .. } | KindView::DeleteRule { .. } | KindView::ListRules {
            ..
        } => {
            catalog_stays(m, c, batch);
        },
        KindView::Send { .. } | KindView::SendBatch { .. } => {
            sending_stays(m, c, batch);
        },
        KindView::Peek { .. } | KindView::Receive { .. } | KindView::ReceiveDeferred { .. } => {
            deliveries_stay(m, c, batch);
        },
        KindView::Complete { .. } | KindView::Abandon { .. } | KindView::Defer { .. }
        | KindView::DeadLetter { .. } | KindView::RenewLock { .. } => {
            settling_stays(m, c, batch);
        },
        KindView::AcceptSession { .. } | KindView::ReleaseSession { .. }
        | KindView::RenewSessionLock { .. } | KindView::SetSessionState { .. }
        | KindView::GetSessionState { .. } | KindView::ExpireSessionLocks => {
            session_steps_stay(m, c, batch);
        },
        KindView::ExpireLocks | KindView::ExpireMessages | KindView::ActivateScheduled
        | KindView::ExpireDuplicateHistory | KindView::CancelScheduled { .. } => {
            sweeps_stay(m, c, batch);
        },
    }
}

proof fn schedules_are_of_their_namespace(c: CommandView, key: Seq<u8>)
    requires
        is_schedule_of(c, key),
    ensures
        of_namespace(c.namespace, key),
        key[0] == keys::TAG_SCHEDULED,
{
    let (at, n) = choose|at: Timestamp, n: SequenceNumber|
        key == #[trigger] keys::scheduled_key(c.namespace, c.entity, at, n);
    let scope = keys::scope_key(keys::TAG_SCHEDULED, c.namespace, c.entity);
    let rest = bytes::be(at.0 as nat, 8) + bytes::be(n.0 as nat, 8);
    assert(key =~= scope + rest);
    a_scope_is_of_its_namespace(keys::TAG_SCHEDULED, c.namespace, c.entity);
    what_follows_does_not_matter(c.namespace, scope, rest);
}

/// Every change that a command stages touches a key of its own namespace.
pub proof fn every_change_stays_in_the_namespace(m: Contents, c: CommandView)
    requires
        m.dom().finite(),
    ensures
        stays(c.namespace, apply::command_step(m, c, Seq::empty())),
{
    every_change_is_kept(m, c);
    if let Ok((changes, _)) = apply::command_step(m, c, Seq::empty()) {
        assert(within(c.namespace, changes)) by {
            reveal(within);
            assert forall|i: int| 0 <= i < changes.len() implies of_namespace(
                c.namespace,
                touched(#[trigger] changes[i]),
            ) by {
                reveal(keeps_to);
                reveal(quiet);
                reveal(spared);
                a_scope_is_of_its_namespace(keys::TAG_QUEUE_COUNTERS, c.namespace, c.entity);
                if schedules(m, c, changes[i]) {
                    schedules_are_of_their_namespace(c, touched(changes[i]));
                }
            }
        }
    }
}

proof fn one_less_is_kept(m: Contents, c: CommandView, ops: Seq<OpView>)
    requires
        keeps_to(m, c, ops),
        ops.len() > 0,
    ensures
        keeps_to(m, c, ops.drop_last()),
        kept(m, c, ops.last()),
{
    reveal(keeps_to);
    let before = ops.drop_last();
    assert forall|i: int| 0 <= i < before.len() implies kept(m, c, #[trigger] before[i]) by {
        assert(before[i] == ops[i]);
    }
    assert(ops[ops.len() - 1] == ops.last());
}

proof fn counting_on(m: Contents, c: CommandView, ops: Seq<OpView>, key: Seq<u8>)
    requires
        keeps_to(m, c, ops),
        key.len() > 0,
        key[0] == keys::TAG_QUEUE_COUNTERS,
    ensures
        machine::next_number_at(storage::apply_ops(m, ops), key) >= machine::next_number_at(m, key),
        machine::next_token_at(storage::apply_ops(m, ops), key) >= machine::next_token_at(m, key),
    decreases ops.len(),
{
    if ops.len() > 0 {
        let before = ops.drop_last();
        let op = ops.last();
        one_less_is_kept(m, c, ops);
        counting_on(m, c, before, key);
        history::one_more_change(m, before, op);
        assert(before.push(op) =~= ops);
        if harmless(c.namespace, op) {
            reveal(quiet);
            reveal(spared);
        } else if schedules(m, c, op) {
            schedules_are_of_their_namespace(c, touched(op));
        } else if counts_on(m, c, op) {
            let counters = choose|counters: QueueCounters|
                op == #[trigger] counting(c, counters) && are_ahead(m, c, counters);
            codec::stored_values_read_back::<QueueCounters>(counters);
        }
    }
}

/// What an entity gives out next never goes back: no command makes any entity give
/// out a number or a lock token again.
pub proof fn numbers_are_never_given_back(
    m: Contents,
    c: CommandView,
    namespace: Seq<char>,
    entity: Seq<char>,
)
    requires
        m.dom().finite(),
    ensures
        machine::next_number(apply::applied(m, c).1, namespace, entity) >= machine::next_number(
            m,
            namespace,
            entity,
        ),
        machine::next_token(apply::applied(m, c).1, namespace, entity) >= machine::next_token(
            m,
            namespace,
            entity,
        ),
{
    every_change_is_kept(m, c);
    if let Ok((changes, _)) = apply::command_step(m, c, Seq::empty()) {
        let key = keys::queue_counters_key(namespace, entity);
        counting_on(m, c, changes, key);
        history::one_more_change(m, changes, apply::clock_change(c.issued_at));
        assert(key[0] != keys::clock_key()[0]);
    }
}

proof fn creations_stand(m: Contents, c: CommandView, ops: Seq<OpView>, key: Seq<u8>)
    requires
        keeps_to(m, c, ops),
        key.len() > 0,
        of_catalog(key) || key[0] == keys::TAG_SCHEDULED,
    ensures
        ({
            let now = storage::apply_ops(m, ops);
            let comes = now.dom().contains(key) && !m.dom().contains(key);
            &&& of_catalog(key) && m.dom().contains(key) ==> now.dom().contains(key)
            &&& comes && key[0] == keys::TAG_TOPIC_SUBSCRIPTION ==> is_new_subscription(m, c, key)
            &&& comes && key[0] == keys::TAG_SCHEDULED ==> is_schedule_of(c, key) && takes_sends(
                m,
                c,
            )
        }),
    decreases ops.len(),
{
    if ops.len() > 0 {
        let before = ops.drop_last();
        let op = ops.last();
        one_less_is_kept(m, c, ops);
        creations_stand(m, c, before, key);
        history::one_more_change(m, before, op);
        assert(before.push(op) =~= ops);
        if harmless(c.namespace, op) {
            reveal(quiet);
            reveal(spared);
        } else if schedules(m, c, op) {
            schedules_are_of_their_namespace(c, touched(op));
        }
    }
}

/// What was created stays: no command takes a queue, a topic or a subscription away. A
/// subscription comes only to a path that no queue had, and a message is scheduled
/// only in a queue that takes messages from senders.
pub proof fn what_was_created_stays(m: Contents, c: CommandView, key: Seq<u8>)
    requires
        m.dom().finite(),
        key.len() > 0,
        of_catalog(key) || key[0] == keys::TAG_SCHEDULED,
    ensures
        ({
            let now = apply::applied(m, c).1;
            let comes = now.dom().contains(key) && !m.dom().contains(key);
            &&& of_catalog(key) && m.dom().contains(key) ==> now.dom().contains(key)
            &&& comes && key[0] == keys::TAG_TOPIC_SUBSCRIPTION ==> is_new_subscription(m, c, key)
            &&& comes && key[0] == keys::TAG_SCHEDULED ==> is_schedule_of(c, key) && takes_sends(
                m,
                c,
            )
        }),
{
    every_change_is_kept(m, c);
    if let Ok((changes, _)) = apply::command_step(m, c, Seq::empty()) {
        creations_stand(m, c, changes, key);
        history::one_more_change(m, changes, apply::clock_change(c.issued_at));
        assert(key[0] != keys::clock_key()[0]);
    }
}

proof fn changes_leave_the_rest(m: Contents, ops: Seq<OpView>, namespace: Seq<char>, key: Seq<u8>)
    requires
        within(namespace, ops),
        !of_namespace(namespace, key),
    ensures
        storage::apply_ops(m, ops).dom().contains(key) == m.dom().contains(key),
        m.dom().contains(key) ==> storage::apply_ops(m, ops)[key] == m[key],
    decreases ops.len(),
{
    if ops.len() > 0 {
        assert(within(namespace, ops.drop_last()) && of_namespace(
            namespace,
            touched(ops.last()),
        )) by {
            reveal(within);
            assert forall|i: int| 0 <= i < ops.drop_last().len() implies of_namespace(
                namespace,
                touched(#[trigger] ops.drop_last()[i]),
            ) by {
                assert(ops.drop_last()[i] == ops[i]);
            }
        }
        changes_leave_the_rest(m, ops.drop_last(), namespace, key);
    }
}

/// A command changes nothing outside its namespace but the clock.
pub proof fn a_command_keeps_to_its_namespace(m: Contents, c: CommandView, key: Seq<u8>)
    requires
        m.dom().finite(),
        !of_namespace(c.namespace, key),
        key != keys::clock_key(),
    ensures
        apply::applied(m, c).1.dom().contains(key) == m.dom().contains(key),
        m.dom().contains(key) ==> apply::applied(m, c).1[key] == m[key],
{
    broadcast use history::one_more_change;

    every_change_stays_in_the_namespace(m, c);
    if let Ok((changes, _)) = apply::command_step(m, c, Seq::empty()) {
        changes_leave_the_rest(m, changes, c.namespace, key);
    }
}

/// No key belongs to two namespaces, however similar their names are.
pub proof fn namespaces_share_no_key(one: Seq<char>, other: Seq<char>, key: Seq<u8>)
    requires
        order::clean(one),
        order::clean(other),
        of_namespace(one, key),
        of_namespace(other, key),
    ensures
        one == other,
{
    reveal(of_namespace);
    order::clean_text_is_plain(one);
    order::clean_text_is_plain(other);
    let a = bytes::utf8(one);
    let b = bytes::utf8(other);
    let tail = key.skip(1);
    let rest = tail.skip((b.len() + 1) as int);
    assert(tail =~= b + seq![SEPARATOR] + rest) by {
        assert(tail.subrange(0, (b.len() + 1) as int) =~= b + seq![SEPARATOR]);
    }
    order::separated(a, b, rest);
    bytes::utf8_injective(one, other);
}

/// What another namespace holds is out of reach of a command: every message,
/// every queue and every session of it stays as it was.
pub proof fn other_namespaces_stay_as_they_were(
    m: Contents,
    c: CommandView,
    other: Seq<char>,
    entity: Seq<char>,
)
    requires
        m.dom().finite(),
        order::clean(c.namespace),
        order::clean(other),
        c.namespace != other,
    ensures
        forall|tag: u8, rest: Seq<u8>|
            ({
                let key = #[trigger] (keys::scope_key(tag, other, entity) + rest);
                let after = apply::applied(m, c).1;
                &&& after.dom().contains(key) == m.dom().contains(key)
                &&& m.dom().contains(key) ==> after[key] == m[key]
            }),
        machine::queue_at(apply::applied(m, c).1, other, entity) == machine::queue_at(
            m,
            other,
            entity,
        ),
        forall|sequence: SequenceNumber| #[trigger]
            machine::message_at(apply::applied(m, c).1, other, entity, sequence)
                == machine::message_at(m, other, entity, sequence),
{
    let after = apply::applied(m, c).1;
    assert forall|tag: u8, rest: Seq<u8>|
        ({
            let key = #[trigger] (keys::scope_key(tag, other, entity) + rest);
            &&& after.dom().contains(key) == m.dom().contains(key)
            &&& m.dom().contains(key) ==> after[key] == m[key]
        }) by {
        let key = keys::scope_key(tag, other, entity) + rest;
        a_scope_is_of_its_namespace(tag, other, entity);
        what_follows_does_not_matter(other, keys::scope_key(tag, other, entity), rest);
        if of_namespace(c.namespace, key) {
            namespaces_share_no_key(c.namespace, other, key);
        }
        a_command_keeps_to_its_namespace(m, c, key);
    }
    let config = keys::queue_config_key(other, entity);
    assert(config =~= keys::scope_key(keys::TAG_QUEUE_CONFIG, other, entity) + Seq::<u8>::empty());
    assert forall|sequence: SequenceNumber| #[trigger]
        machine::message_at(after, other, entity, sequence) == machine::message_at(
            m,
            other,
            entity,
            sequence,
        ) by {
        let key = keys::scope_key(keys::TAG_MESSAGE, other, entity) + bytes::be(
            sequence.0 as nat,
            8,
        );
        assert(key == keys::message_key(other, entity, sequence));
    }
}

} // verus!
