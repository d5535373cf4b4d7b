//! What becomes of a queue, a message and a session, from command to command.

use vstd::prelude::*;

use crate::bytes;
use crate::domain::codec;
use crate::domain::command::{CommandView, InputView, KindView, OutcomeView};
use crate::domain::error::ErrorView;
use crate::domain::identifier;
use crate::domain::keys;
use crate::domain::machine;
use crate::domain::machine::apply;
use crate::domain::machine::deferred;
use crate::domain::machine::delivery;
use crate::domain::machine::duplicate;
use crate::domain::machine::orderly;
use crate::domain::machine::history;
use crate::domain::machine::isolation;
use crate::domain::machine::scheduling;
use crate::domain::machine::send;
use crate::domain::machine::shared;
use crate::domain::machine::topic;
use crate::domain::message;
use crate::domain::message::{
    DeliveryOrigin, DeliveryView, LockToken, MessageRecord, MessageState, ReceiveMode, RecordView,
    SequenceNumber,
};
use crate::domain::order;
use crate::domain::queue;
use crate::domain::queue::{QueueConfig, QueueCounters};
use crate::domain::rule;
use crate::domain::rule::PropertiesView;
use crate::domain::session::{HoldView, SessionRecord, SessionView};
use crate::domain::time;
use crate::domain::time::Timestamp;
use crate::domain::topic::{TopicConfig, MAX_TOPIC_SUBSCRIPTIONS};
use crate::domain::wire::Wire;
use crate::storage;
use crate::storage::{Contents, OpView};

verus! {

// ---- keys of one entity stay apart -----------------------------------------

/// Every key begins with the tag of its kind.
pub(crate) proof fn keys_begin_with_their_tags()
    ensures
        keys::clock_key()[0] == keys::TAG_CLOCK,
        forall|n: Seq<char>, e: Seq<char>|
            (#[trigger] keys::queue_config_key(n, e))[0] == keys::TAG_QUEUE_CONFIG,
        forall|n: Seq<char>, e: Seq<char>|
            (#[trigger] keys::queue_counters_key(n, e))[0] == keys::TAG_QUEUE_COUNTERS,
        forall|n: Seq<char>, e: Seq<char>|
            (#[trigger] keys::topic_config_key(n, e))[0] == keys::TAG_TOPIC_CONFIG,
        forall|n: Seq<char>, e: Seq<char>, s: SequenceNumber|
            (#[trigger] keys::message_key(n, e, s))[0] == keys::TAG_MESSAGE,
        forall|n: Seq<char>, e: Seq<char>, s: SequenceNumber|
            (#[trigger] keys::ready_key(n, e, s))[0] == keys::TAG_READY,
        forall|n: Seq<char>, e: Seq<char>, s: SequenceNumber|
            (#[trigger] keys::deferred_key(n, e, s))[0] == keys::TAG_DEFERRED,
        forall|n: Seq<char>, e: Seq<char>, t: Timestamp, s: SequenceNumber|
            (#[trigger] keys::lock_key(n, e, t, s))[0] == keys::TAG_LOCK,
        forall|n: Seq<char>, e: Seq<char>, t: Timestamp, s: SequenceNumber|
            (#[trigger] keys::expiry_key(n, e, t, s))[0] == keys::TAG_EXPIRY,
        forall|n: Seq<char>, e: Seq<char>, t: Timestamp, s: SequenceNumber|
            (#[trigger] keys::scheduled_key(n, e, t, s))[0] == keys::TAG_SCHEDULED,
        forall|n: Seq<char>, e: Seq<char>, i: Seq<char>|
            (#[trigger] keys::duplicate_id_key(n, e, i))[0] == keys::TAG_DUPLICATE_ID,
        forall|n: Seq<char>, e: Seq<char>, t: Timestamp, i: Seq<char>|
            (#[trigger] keys::duplicate_expiry_key(n, e, t, i))[0] == keys::TAG_DUPLICATE_EXPIRY,
        forall|n: Seq<char>, e: Seq<char>, i: Seq<char>|
            (#[trigger] keys::session_key(n, e, i))[0] == keys::TAG_SESSION,
        forall|n: Seq<char>, e: Seq<char>, i: Seq<char>, s: SequenceNumber|
            (#[trigger] keys::session_ready_key(n, e, i, s))[0] == keys::TAG_SESSION_READY,
        forall|n: Seq<char>, e: Seq<char>, t: Timestamp, i: Seq<char>|
            (#[trigger] keys::session_lock_key(n, e, t, i))[0] == keys::TAG_SESSION_LOCK,
{
}

/// Two paths of one namespace have two scopes.
pub(crate) proof fn paths_have_their_own_scopes(
    tag: u8,
    namespace: Seq<char>,
    one: Seq<char>,
    other: Seq<char>,
)
    requires
        keys::scope_key(tag, namespace, one) == keys::scope_key(tag, namespace, other),
    ensures
        one == other,
{
    let a = keys::scope_key(tag, namespace, one);
    let b = keys::scope_key(tag, namespace, other);
    let from = (1 + bytes::utf8(namespace).len() + 1) as int;
    assert(a.subrange(from, a.len() - 1) =~= bytes::utf8(one));
    assert(b.subrange(from, b.len() - 1) =~= bytes::utf8(other));
    bytes::utf8_injective(one, other);
}

/// A queue and its dead-letter queue have two paths.
pub(crate) proof fn a_shadow_is_another_path(entity: Seq<char>)
    ensures
        machine::shadow_of(entity) matches Ok(shadow) ==> shadow != entity,
{
    reveal_strlit("/$deadletterqueue");
    assert(identifier::DEAD_LETTER_QUEUE_SUFFIX@.len() > 0);
}

/// Messages of one namespace share a key only where path and number agree.
pub(crate) proof fn messages_have_their_own_keys(
    namespace: Seq<char>,
    one: Seq<char>,
    a: SequenceNumber,
    other: Seq<char>,
    b: SequenceNumber,
)
    requires
        keys::message_key(namespace, one, a) == keys::message_key(namespace, other, b),
    ensures
        one == other,
        a == b,
{
    order::sequences_read_back(keys::message_prefix_key(namespace, one), a);
    order::sequences_read_back(keys::message_prefix_key(namespace, other), b);
    let x = keys::message_key(namespace, one, a);
    bytes::be_len(a.0 as nat, 8);
    bytes::be_len(b.0 as nat, 8);
    assert(x.subrange(0, x.len() - 8) =~= keys::message_prefix_key(namespace, one));
    assert(x.subrange(0, x.len() - 8) =~= keys::message_prefix_key(namespace, other));
    paths_have_their_own_scopes(keys::TAG_MESSAGE, namespace, one, other);
}

// ---- queues ----------------------------------------------------------------

/// A queue that was created has the settings it was created with, its
/// dead-letter queue exists, and it cannot be created again.
pub proof fn queues_are_created_once(m: Contents, c: CommandView, again: CommandView)
    requires
        c.kind is CreateQueue,
        apply::applied(m, c).0 is Ok,
        again.kind is CreateQueue,
        again.namespace == c.namespace,
        again.entity == c.entity,
        c.issued_at.0 <= again.issued_at.0,
    ensures
        ({
            let after = apply::applied(m, c).1;
            let config = c.kind->CreateQueue_config;
            &&& apply::applied(m, c).0 == Ok::<OutcomeView, ErrorView>(OutcomeView::QueueCreated)
            &&& queue::queue_config_fault(config) is None
            &&& machine::queue_at(after, c.namespace, c.entity) == Ok::<
                Option<QueueConfig>,
                ErrorView,
            >(Some(config))
            &&& machine::shadow_of(c.entity) matches Ok(shadow)
            &&& machine::queue_at(after, c.namespace, shadow) == Ok::<
                Option<QueueConfig>,
                ErrorView,
            >(Some(apply::queue_shadow(config)))
            &&& apply::applied(after, again) == (
                Err::<OutcomeView, ErrorView>(ErrorView::QueueAlreadyExists),
                after,
            )
        }),
{
    broadcast use history::one_more_change;

    keys_begin_with_their_tags();
    let config = c.kind->CreateQueue_config;
    codec::stored_values_read_back::<QueueConfig>(config);
    codec::stored_values_read_back::<QueueConfig>(apply::queue_shadow(config));
    history::the_clock_never_goes_back(m, c);
    a_shadow_is_another_path(c.entity);
    let shadow = machine::shadow_of(c.entity)->Ok_0;
    if keys::queue_config_key(c.namespace, c.entity) == keys::queue_config_key(
        c.namespace,
        shadow,
    ) {
        paths_have_their_own_scopes(keys::TAG_QUEUE_CONFIG, c.namespace, c.entity, shadow);
    }
    let after = apply::applied(m, c).1;
    let key = keys::queue_config_key(c.namespace, c.entity);
    assert(after.dom().contains(key) && after[key] == codec::encoded::<QueueConfig>(config));
    codec::stored_values_read_back::<Timestamp>(c.issued_at);
    assert(machine::applied_time(after) == Ok::<Timestamp, ErrorView>(c.issued_at));
}

// ---- sending ---------------------------------------------------------------

/// The message that a send carries.
pub open spec fn sent_input(c: CommandView) -> InputView {
    InputView {
        message_id: c.kind->Send_message_id,
        body: c.kind->Send_body,
        time_to_live_millis: c.kind->Send_time_to_live_millis,
        session_id: c.kind->Send_session_id,
        scheduled_enqueue_at: c.kind->Send_scheduled_enqueue_at,
        envelope: c.kind->Send_envelope,
    }
}

/// The messages that a command sends.
pub open spec fn sent_inputs(c: CommandView) -> Seq<InputView> {
    match c.kind {
        KindView::SendBatch { messages } => messages,
        _ => seq![sent_input(c)],
    }
}

/// Whether a command sends to a queue rather than to a topic.
pub open spec fn sends_to_queue(m: Contents, c: CommandView) -> bool {
    &&& c.kind is Send
    &&& !m.dom().contains(keys::topic_config_key(c.namespace, c.entity))
}

/// The stored form of the message that a send carries, under `sequence`.
pub open spec fn sent_record(
    c: CommandView,
    config: QueueConfig,
    sequence: SequenceNumber,
) -> RecordView {
    send::new_record(
        c,
        sent_input(c),
        sequence,
        send::effective_lifetime(
            c.kind->Send_time_to_live_millis,
            config.default_time_to_live_millis,
        ),
    )
}

/// A message that was sent is stored under the number it was given, is ready at
/// once or waits until it is due, the next message gets the next number, and every
/// other message stays as it was.
pub proof fn sent_messages_are_stored(m: Contents, c: CommandView, sequence: SequenceNumber)
    requires
        sends_to_queue(m, c),
        apply::applied(m, c).0 == Ok::<OutcomeView, ErrorView>(OutcomeView::Sent { sequence }),
        <MessageRecord as Wire>::fits(sent_record(c, machine::config_of(m, c)->Ok_0, sequence)),
    ensures
        ({
            let after = apply::applied(m, c).1;
            let record = sent_record(c, machine::config_of(m, c)->Ok_0, sequence);
            &&& machine::message_at(after, c.namespace, c.entity, sequence) == Ok::<
                Option<RecordView>,
                ErrorView,
            >(Some(record))
            &&& record.body == c.kind->Send_body
            &&& record.message_id == c.kind->Send_message_id
            &&& match record.scheduled_enqueue_at {
                Some(at) => after.dom().contains(
                    keys::scheduled_key(c.namespace, c.entity, at, sequence),
                ) && after.dom().contains(shared::ready_entry(c, record)) == m.dom().contains(
                    shared::ready_entry(c, record),
                ),
                None => after.dom().contains(shared::ready_entry(c, record)),
            }
            &&& machine::counters_of(m, c) matches Ok(counters)
            &&& counters.next_sequence == sequence.0
            &&& machine::counters_of(after, c) == Ok::<QueueCounters, ErrorView>(
                QueueCounters { next_sequence: queue::bump(sequence.0), ..counters },
            )
            &&& forall|s: SequenceNumber|
                s != sequence ==> #[trigger] machine::message_at(after, c.namespace, c.entity, s)
                    == machine::message_at(m, c.namespace, c.entity, s)
        }),
{
    broadcast use history::one_more_change;

    keys_begin_with_their_tags();
    reveal_with_fuel(send::stored_from, 2);
    reveal_with_fuel(send::numbers, 2);
    let config = machine::config_of(m, c)->Ok_0;
    let record = sent_record(c, config, sequence);
    message::stored_messages_read_back(record);
    let counters = machine::counters_of(m, c)->Ok_0;
    codec::stored_values_read_back::<QueueCounters>(
        QueueCounters { next_sequence: queue::bump(sequence.0), ..counters },
    );
    let inputs = seq![sent_input(c)];
    let (staged, stored) = duplicate::history(m, c, config, inputs, Seq::empty())->Ok_0;
    assert(send::numbers(counters.next_sequence, 1)[0] == SequenceNumber(counters.next_sequence));
    let sent = send::stored_from(c, config, inputs, stored, 0, (staged, counters.next_sequence));
    assert(sent == (send::stored_changes(c, record, staged), queue::bump(sequence.0)));
    reveal_with_fuel(duplicate::all_judged, 2);
    let after = apply::applied(m, c).1;
    assert forall|s: SequenceNumber| s != sequence implies #[trigger] machine::message_at(
        after,
        c.namespace,
        c.entity,
        s,
    ) == machine::message_at(m, c.namespace, c.entity, s) by {
        if keys::message_key(c.namespace, c.entity, s) == keys::message_key(
            c.namespace,
            c.entity,
            sequence,
        ) {
            messages_have_their_own_keys(c.namespace, c.entity, s, c.entity, sequence);
        }
    }
}

pub(crate) proof fn as_many_numbers_as_asked_for(next: u64, n: nat)
    ensures
        send::numbers(next, n).len() == n,
    decreases n,
{
    if n > 0 {
        as_many_numbers_as_asked_for(queue::bump(next), (n - 1) as nat);
    }
}

/// Whether two stores agree on a key.
pub open spec fn agree_on(before: Contents, after: Contents, key: Seq<u8>) -> bool {
    &&& after.dom().contains(key) == before.dom().contains(key)
    &&& before.dom().contains(key) ==> after[key] == before[key]
}

/// The stored form of message `i` of a batch, under `sequence`.
pub open spec fn batch_record(
    m: Contents,
    c: CommandView,
    i: int,
    sequence: SequenceNumber,
) -> RecordView {
    send::new_record(
        c,
        sent_inputs(c)[i],
        sequence,
        send::effective_lifetime(
            sent_inputs(c)[i].time_to_live_millis,
            machine::config_of(m, c)->Ok_0.default_time_to_live_millis,
        ),
    )
}

/// Whether message `i` of a batch is new to a queue that detects duplicates; any
/// other queue takes every message.
pub open spec fn is_new(m: Contents, c: CommandView, i: int) -> bool {
    duplicate::history(
        m,
        c,
        machine::config_of(m, c)->Ok_0,
        sent_inputs(c),
        Seq::empty(),
    )->Ok_0.1[i]
}

/// Every message of a batch that was sent to a queue takes a number of its own, and
/// is stored under it unless it is suppressed as a duplicate. When the queue has run
/// out of numbers, and several messages share the last one, this holds of none of
/// them.
pub proof fn batches_are_stored(
    m: Contents,
    c: CommandView,
    sequences: Seq<SequenceNumber>,
    i: int,
)
    requires
        c.kind is SendBatch,
        apply::applied(m, c).0 matches Ok(
            OutcomeView::BatchSent { sequences: given, .. },
        ) && given == sequences,
        0 <= i < sent_inputs(c).len(),
        forall|j: int| 0 <= j < sequences.len() && j != i ==> sequences[j] != sequences[i],
        <MessageRecord as Wire>::fits(batch_record(m, c, i, sequences[i])),
    ensures
        sequences.len() == sent_inputs(c).len(),
        machine::message_at(apply::applied(m, c).1, c.namespace, c.entity, sequences[i]) == (
        if is_new(m, c, i) {
            Ok::<Option<RecordView>, ErrorView>(Some(batch_record(m, c, i, sequences[i])))
        } else {
            machine::message_at(m, c.namespace, c.entity, sequences[i])
        }),
{
    broadcast use history::one_more_change;

    keys_begin_with_their_tags();
    let inputs = sent_inputs(c);
    let config = machine::config_of(m, c)->Ok_0;
    let (staged, stored) = duplicate::history(m, c, config, inputs, Seq::empty())->Ok_0;
    let counters = machine::counters_of(m, c)->Ok_0;
    let key = keys::message_key(c.namespace, c.entity, sequences[i]);
    as_many_numbers_as_asked_for(counters.next_sequence, inputs.len());
    if config.requires_duplicate_detection {
        judging_leaves_messages_alone(m, c, config, inputs, 0, (Seq::empty(), Seq::empty()), key);
    }
    batches_are_stored_in_order(
        m,
        c,
        config,
        inputs,
        stored,
        0,
        (staged, counters.next_sequence),
        i,
        sequences[i],
    );
    message::stored_messages_read_back(batch_record(m, c, i, sequences[i]));
}

pub(crate) proof fn judging_leaves_messages_alone(
    m: Contents,
    c: CommandView,
    config: QueueConfig,
    inputs: Seq<InputView>,
    k: int,
    state: duplicate::HistoryState,
    key: Seq<u8>,
)
    requires
        key.len() > 0,
        key[0] == keys::TAG_MESSAGE,
    ensures
        duplicate::all_judged(m, c, config, inputs, k, state) matches Ok(next) ==> agree_on(
            storage::apply_ops(m, state.0),
            storage::apply_ops(m, next.0),
            key,
        ),
    decreases inputs.len() - k,
{
    broadcast use history::one_more_change;

    keys_begin_with_their_tags();
    if k < inputs.len() {
        if let Ok(next) = duplicate::judged(m, c, config, inputs, k, state) {
            assert(agree_on(
                storage::apply_ops(m, state.0),
                storage::apply_ops(m, next.0),
                key,
            ));
            judging_leaves_messages_alone(m, c, config, inputs, k + 1, next, key);
        }
    }
}

/// Storing one message leaves those under other numbers alone.
proof fn storing_touches_one_number(
    m: Contents,
    c: CommandView,
    record: RecordView,
    batch: Seq<OpView>,
    n: SequenceNumber,
)
    ensures
        ({
            let before = storage::apply_ops(m, batch);
            let after = storage::apply_ops(m, send::stored_changes(c, record, batch));
            let key = keys::message_key(c.namespace, c.entity, n);
            if record.sequence == n {
                after.dom().contains(key) && after[key] == codec::encoded::<MessageRecord>(record)
            } else {
                agree_on(before, after, key)
            }
        }),
{
    broadcast use history::one_more_change;

    keys_begin_with_their_tags();
    let key = keys::message_key(c.namespace, c.entity, n);
    if keys::message_key(c.namespace, c.entity, record.sequence) == key {
        messages_have_their_own_keys(c.namespace, c.entity, record.sequence, c.entity, n);
    }
}

proof fn batches_are_stored_in_order(
    m: Contents,
    c: CommandView,
    config: QueueConfig,
    inputs: Seq<InputView>,
    stored: Seq<bool>,
    k: int,
    state: send::SendState,
    i: int,
    n: SequenceNumber,
)
    requires
        0 <= k <= inputs.len(),
        0 <= i < inputs.len(),
        k <= i ==> send::numbers(state.1, (inputs.len() - k) as nat)[i - k] == n,
        forall|j: int|
            0 <= j < inputs.len() - k && j != i - k ==> (#[trigger] send::numbers(
                state.1,
                (inputs.len() - k) as nat,
            )[j]) != n,
    ensures
        ({
            let after = storage::apply_ops(
                m,
                send::stored_from(c, config, inputs, stored, k, state).0,
            );
            let before = storage::apply_ops(m, state.0);
            let key = keys::message_key(c.namespace, c.entity, n);
            if k <= i && stored[i] {
                after.dom().contains(key) && after[key] == codec::encoded::<MessageRecord>(
                    send::new_record(
                        c,
                        inputs[i],
                        n,
                        send::effective_lifetime(
                            inputs[i].time_to_live_millis,
                            config.default_time_to_live_millis,
                        ),
                    ),
                )
            } else {
                agree_on(before, after, key)
            }
        }),
    decreases inputs.len() - k,
{
    if k < inputs.len() {
        let left = (inputs.len() - k) as nat;
        let numbers = send::numbers(state.1, left);
        let rest = send::numbers(queue::bump(state.1), (left - 1) as nat);
        as_many_numbers_as_asked_for(queue::bump(state.1), (left - 1) as nat);
        assert(numbers == seq![SequenceNumber(state.1)] + rest);
        assert(numbers[0] == SequenceNumber(state.1));
        assert forall|j: int| 0 <= j < rest.len() implies #[trigger] rest[j] == numbers[j + 1] by {}
        let record = send::new_record(
            c,
            inputs[k],
            SequenceNumber(state.1),
            send::effective_lifetime(
                inputs[k].time_to_live_millis,
                config.default_time_to_live_millis,
            ),
        );
        storing_touches_one_number(m, c, record, state.0, n);
        let changes = if stored[k] {
            send::stored_changes(c, record, state.0)
        } else {
            state.0
        };
        batches_are_stored_in_order(
            m,
            c,
            config,
            inputs,
            stored,
            k + 1,
            (changes, queue::bump(state.1)),
            i,
            n,
        );
    }
}

/// The queue that duplicates are detected on keeps the settings that a send
/// finds.
proof fn sends_keep_the_settings(m: Contents, c: CommandView)
    requires
        sends_to_queue(m, c),
    ensures
        ({
            let after = apply::applied(m, c).1;
            &&& machine::queue_at(after, c.namespace, c.entity) == machine::queue_at(
                m,
                c.namespace,
                c.entity,
            )
            &&& !after.dom().contains(keys::topic_config_key(c.namespace, c.entity))
        }),
{
    broadcast use history::one_more_change;

    keys_begin_with_their_tags();
    reveal_with_fuel(send::stored_from, 2);
    reveal_with_fuel(duplicate::all_judged, 2);
}

proof fn sends_keep_the_subscriptions(m: Contents, c: CommandView)
    requires
        sends_to_queue(m, c),
    ensures
        topic::is_subscription(apply::applied(m, c).1, c.namespace, c.entity)
            == topic::is_subscription(m, c.namespace, c.entity),
{
    let after = apply::applied(m, c).1;
    assert forall|topic: Seq<char>, name: Seq<char>|
        after.dom().contains(#[trigger] keys::topic_subscription_key(c.namespace, topic, name))
            == m.dom().contains(keys::topic_subscription_key(c.namespace, topic, name)) by {
        sends_keep_a_subscription(m, c, keys::topic_subscription_key(c.namespace, topic, name));
    }
    assert forall|topic: Seq<char>|
        #[trigger] topic::is_subscription_of(after, c.namespace, topic, c.entity)
            == topic::is_subscription_of(m, c.namespace, topic, c.entity) by {}
    if topic::is_subscription(m, c.namespace, c.entity) {
        let topic = choose|topic: Seq<char>|
            topic::is_subscription_of(m, c.namespace, topic, c.entity);
        assert(topic::is_subscription_of(after, c.namespace, topic, c.entity));
    }
}

proof fn sends_keep_a_subscription(m: Contents, c: CommandView, key: Seq<u8>)
    requires
        sends_to_queue(m, c),
        key.len() > 0,
        key[0] == keys::TAG_TOPIC_SUBSCRIPTION,
    ensures
        apply::applied(m, c).1.dom().contains(key) == m.dom().contains(key),
{
    broadcast use history::one_more_change;

    keys_begin_with_their_tags();
    reveal_with_fuel(send::stored_from, 2);
    reveal_with_fuel(duplicate::all_judged, 2);
}

/// A second message with an identifier that a queue still remembers is
/// suppressed: nothing is stored for it, though it takes a number.
pub proof fn remembered_identifiers_are_suppressed(m: Contents, c: CommandView, again: CommandView)
    requires
        sends_to_queue(m, c),
        apply::applied(m, c).0 matches Ok(OutcomeView::Sent { .. }),
        machine::config_of(m, c)->Ok_0.requires_duplicate_detection,
        again.kind is Send,
        again.namespace == c.namespace,
        again.entity == c.entity,
        again.kind->Send_message_id == c.kind->Send_message_id,
        c.kind->Send_message_id.len() > 0,
        c.issued_at.0 <= again.issued_at.0,
        again.issued_at.0 < time::later(
            c.issued_at,
            machine::config_of(m, c)->Ok_0.duplicate_detection_history_millis,
        ).0,
        send::input_fault(machine::config_of(m, c)->Ok_0, sent_input(again)) is None,
    ensures
        ({
            let once = apply::applied(m, c).1;
            let (outcome, twice) = apply::applied(once, again);
            &&& outcome matches Ok(OutcomeView::DuplicateSuppressed { sequence })
            &&& sequence.0 == machine::counters_of(once, c)->Ok_0.next_sequence
            &&& forall|s: SequenceNumber| #[trigger]
                machine::message_at(twice, c.namespace, c.entity, s) == machine::message_at(
                    once,
                    c.namespace,
                    c.entity,
                    s,
                )
        }),
{
    broadcast use history::one_more_change;

    keys_begin_with_their_tags();
    reveal_with_fuel(send::stored_from, 2);
    reveal_with_fuel(send::numbers, 2);
    reveal_with_fuel(send::fault_from, 2);
    reveal_with_fuel(duplicate::all_judged, 2);
    sends_keep_the_settings(m, c);
    sends_keep_the_subscriptions(m, c);
    history::the_clock_never_goes_back(m, c);
    let config = machine::config_of(m, c)->Ok_0;
    let id = c.kind->Send_message_id;
    let deadline = time::later(c.issued_at, config.duplicate_detection_history_millis);
    codec::stored_values_read_back::<Timestamp>(deadline);
    codec::stored_values_read_back::<Timestamp>(c.issued_at);
    let once = apply::applied(m, c).1;
    assert(duplicate::history_at(once, c.namespace, c.entity, id) == Ok::<
        Option<Timestamp>,
        ErrorView,
    >(Some(deadline)));
    let counters = machine::counters_of(m, c)->Ok_0;
    codec::stored_values_read_back::<QueueCounters>(
        QueueCounters { next_sequence: queue::bump(counters.next_sequence), ..counters },
    );
    assert(machine::counters_of(once, c) is Ok);
    assert(machine::applied_time(once) == Ok::<Timestamp, ErrorView>(c.issued_at));
    let inputs = seq![sent_input(again)];
    assert(!send::sessions_differ(config, inputs));
    assert(duplicate::history(once, again, config, inputs, Seq::empty()) == Ok::<
        duplicate::HistoryState,
        ErrorView,
    >((Seq::<OpView>::empty(), Seq::<bool>::empty().push(false))));
}

// ---- receiving -------------------------------------------------------------

/// A delivery comes from the first `ready` entry whose message has not expired.
pub(crate) proof fn a_delivery_is_ready(
    m: Contents,
    c: CommandView,
    config: QueueConfig,
    mode: ReceiveMode,
    asked: Option<u64>,
    ready: Seq<(Seq<u8>, Seq<u8>)>,
    batch: Seq<OpView>,
) -> (found: (int, RecordView, Seq<OpView>))
    requires
        delivery::receive_from(m, c, config, mode, asked, ready, batch) matches Ok(
            (_, OutcomeView::Received(Some(_))),
        ),
    ensures
        0 <= found.0 < ready.len(),
        keys::last_sequence(ready[found.0].0) matches Some(sequence) && machine::message_at(
            m,
            c.namespace,
            c.entity,
            sequence,
        ) == Ok::<Option<RecordView>, ErrorView>(Some(found.1)) && !message::expired(
            found.1,
            c.issued_at,
        ) && delivery::receive_from(m, c, config, mode, asked, ready, batch)
            == delivery::handed_out(m, c, config, mode, asked, sequence, found.1, found.2),
        forall|i: int|
            0 <= i < found.0 ==> (keys::last_sequence((#[trigger] ready[i]).0) matches Some(earlier)
                && machine::message_at(m, c.namespace, c.entity, earlier) matches Ok(
                Some(record),
            ) && message::expired(record, c.issued_at)),
    decreases ready.len(),
{
    let sequence = keys::last_sequence(ready[0].0)->Some_0;
    let record = machine::message_at(m, c.namespace, c.entity, sequence)->Ok_0->Some_0;
    if message::expired(record, c.issued_at) {
        let longer = shared::lifetime_over(c, record, batch)->Ok_0;
        let (at, which, staged) = a_delivery_is_ready(
            m,
            c,
            config,
            mode,
            asked,
            ready.skip(1),
            longer,
        );
        assert(ready.skip(1)[at] == ready[at + 1]);
        assert forall|i: int| 0 <= i < at + 1 implies (keys::last_sequence(
            (#[trigger] ready[i]).0,
        ) matches Some(earlier) && machine::message_at(m, c.namespace, c.entity, earlier) matches Ok(
            Some(record),
        ) && message::expired(record, c.issued_at)) by {
            if i > 0 {
                assert(ready.skip(1)[i - 1] == ready[i]);
            }
        }
        (at + 1, which, staged)
    } else {
        (0, record, batch)
    }
}

/// Where a receive looks for messages: in the session it holds, or in the queue.
pub open spec fn ready_prefix(c: CommandView, hold: Option<HoldView>) -> Seq<u8> {
    match hold {
        Some(hold) => keys::session_ready_prefix_key(c.namespace, c.entity, hold.session_id),
        None => keys::ready_prefix_key(c.namespace, c.entity),
    }
}

pub(crate) proof fn found_under_a_number(m: Contents, prefix: Seq<u8>, at: int) -> (n: u64)
    requires
        m.dom().finite(),
        orderly::holds_numbers_alone(m, prefix),
        0 <= at < storage::walk(m, prefix, prefix).len(),
    ensures
        storage::walk(m, prefix, prefix)[at] == keys::numbered(prefix, n),
{
    storage::walk_lists_the_selected_keys(m, prefix, prefix);
    let found = storage::walk(m, prefix, prefix)[at];
    assert(storage::walk(m, prefix, prefix).contains(found));
    assert(storage::selected(m, prefix, prefix).contains(found));
    choose|n: u64| found == keys::numbered(prefix, n)
}

/// In an index of numbers a smaller number comes earlier.
pub(crate) proof fn smaller_numbers_come_earlier(
    m: Contents,
    prefix: Seq<u8>,
    at: int,
    n: u64,
    earlier: u64,
) -> (i: int)
    requires
        m.dom().finite(),
        0 <= at < storage::walk(m, prefix, prefix).len(),
        storage::walk(m, prefix, prefix)[at] == keys::numbered(prefix, n),
        m.dom().contains(keys::numbered(prefix, earlier)),
        earlier < n,
    ensures
        0 <= i < at,
        storage::walk(m, prefix, prefix)[i] == keys::numbered(prefix, earlier),
{
    storage::walk_lists_the_selected_keys(m, prefix, prefix);
    let walked = storage::walk(m, prefix, prefix);
    let key = keys::numbered(prefix, earlier);
    assert(bytes::has_prefix(key, prefix)) by {
        assert(key.subrange(0, prefix.len() as int) =~= prefix);
    }
    bytes::be_len(earlier as nat, 8);
    assert(bytes::lex_le(prefix, key)) by {
        assert(bytes::parts_below(prefix, key, prefix.len() as int));
    }
    assert(storage::selected(m, prefix, prefix).contains(key));
    assert(walked.contains(key));
    let i = choose|i: int| 0 <= i < walked.len() && walked[i] == key;
    order::numbers_sort(prefix, earlier, n);
    if i > at {
        assert(bytes::lex_lt(walked[at], walked[i]));
        bytes::lex_asymmetric(key, walked[at]);
    }
    i
}

/// A receive hands out the first message in the order of numbers: whatever is
/// ready under a smaller number has outlived its lifetime. On a session queue
/// that is the order within the session that is held.
pub proof fn messages_are_received_in_order(
    m: Contents,
    c: CommandView,
    received: DeliveryView,
    earlier: SequenceNumber,
)
    requires
        m.dom().finite(),
        c.kind is Receive,
        apply::applied(m, c).0 == Ok::<OutcomeView, ErrorView>(
            OutcomeView::Received(Some(received)),
        ),
        m.dom().contains(
            keys::numbered(ready_prefix(c, c.kind->Receive_session), earlier.0),
        ),
        orderly::orderly(m),
        order::clean(c.namespace),
        order::clean(c.entity),
        c.kind->Receive_session matches Some(hold) ==> order::clean(hold.session_id),
        earlier.0 < received.sequence.0,
    ensures
        machine::message_at(m, c.namespace, c.entity, earlier) matches Ok(Some(record))
            && message::expired(record, c.issued_at),
{
    let prefix = ready_prefix(c, c.kind->Receive_session);
    orderly::ready_indexes_hold_numbers_alone(
        m,
        c.namespace,
        c.entity,
        match c.kind->Receive_session {
            Some(hold) => Some(hold.session_id),
            None => None,
        },
    );
    let config = delivery::receivable(m, c)->Ok_0;
    let ready = storage::scan(m, prefix, prefix, machine::MAX_RECEIVE_SCAN);
    let (at, record, staged) = a_delivery_is_ready(
        m,
        c,
        config,
        c.kind->Receive_mode,
        c.kind->Receive_lock_duration_millis,
        ready,
        Seq::empty(),
    );
    let n = found_under_a_number(m, prefix, at);
    order::sequences_read_back(prefix, SequenceNumber(n));
    assert(received.sequence == SequenceNumber(n));
    let i = smaller_numbers_come_earlier(m, prefix, at, n, earlier.0);
    assert(ready[i].0 == keys::numbered(prefix, earlier.0));
    order::sequences_read_back(prefix, earlier);
}

/// The message that a delivery hands out is the one that was stored.
pub proof fn deliveries_carry_what_was_stored(
    m: Contents,
    c: CommandView,
    received: DeliveryView,
)
    requires
        c.kind is Receive,
        apply::applied(m, c).0 == Ok::<OutcomeView, ErrorView>(
            OutcomeView::Received(Some(received)),
        ),
    ensures
        machine::message_at(m, c.namespace, c.entity, received.sequence) matches Ok(Some(record))
            && !message::expired(record, c.issued_at) && received.body == record.body
            && received.message_id == record.message_id && received.envelope == record.envelope
            && received.session_id == record.session_id && received.delivery_count
            == shared::count_up(record.delivery_count),
        received.lock is Some <==> c.kind->Receive_mode == ReceiveMode::PeekLock,
{
    let prefix = ready_prefix(c, c.kind->Receive_session);
    let (_, record, _) = a_delivery_is_ready(
        m,
        c,
        delivery::receivable(m, c)->Ok_0,
        c.kind->Receive_mode,
        c.kind->Receive_lock_duration_millis,
        storage::scan(m, prefix, prefix, machine::MAX_RECEIVE_SCAN),
        Seq::empty(),
    );
}

/// A message that was received under a lock is locked with the token that was
/// handed out, until the deadline that was handed out, and is ready no more.
pub proof fn received_messages_are_locked(m: Contents, c: CommandView, received: DeliveryView)
    requires
        c.kind is Receive,
        c.kind->Receive_mode == ReceiveMode::PeekLock,
        apply::applied(m, c).0 == Ok::<OutcomeView, ErrorView>(
            OutcomeView::Received(Some(received)),
        ),
        machine::message_at(m, c.namespace, c.entity, received.sequence) matches Ok(Some(record))
            && <MessageRecord as Wire>::fits(record) && record.sequence == received.sequence,
    ensures
        ({
            let after = apply::applied(m, c).1;
            let record = machine::message_at(
                m,
                c.namespace,
                c.entity,
                received.sequence,
            )->Ok_0->Some_0;
            &&& received.lock matches Some(lock)
            &&& machine::message_at(after, c.namespace, c.entity, received.sequence) == Ok::<
                Option<RecordView>,
                ErrorView,
            >(
                Some(
                    RecordView {
                        delivery_count: shared::count_up(record.delivery_count),
                        state: MessageState::Locked {
                            token: lock.token,
                            locked_until: lock.locked_until,
                            origin: DeliveryOrigin::Ready,
                        },
                        ..record
                    },
                ),
            )
            &&& !after.dom().contains(shared::ready_entry(c, record))
            &&& after.dom().contains(
                keys::lock_key(c.namespace, c.entity, lock.locked_until, received.sequence),
            )
            &&& machine::counters_of(m, c) matches Ok(counters)
            &&& lock.token == LockToken(counters.next_lock_token)
            &&& machine::counters_of(after, c) == Ok::<QueueCounters, ErrorView>(
                QueueCounters {
                    next_lock_token: queue::bump(counters.next_lock_token),
                    ..counters
                },
            )
        }),
{
    broadcast use history::one_more_change;

    keys_begin_with_their_tags();
    let prefix = ready_prefix(c, c.kind->Receive_session);
    let config = delivery::receivable(m, c)->Ok_0;
    let (_, record, staged) = a_delivery_is_ready(
        m,
        c,
        config,
        c.kind->Receive_mode,
        c.kind->Receive_lock_duration_millis,
        storage::scan(m, prefix, prefix, machine::MAX_RECEIVE_SCAN),
        Seq::empty(),
    );
    let lock = received.lock->Some_0;
    let locked = RecordView {
        delivery_count: shared::count_up(record.delivery_count),
        state: MessageState::Locked {
            token: lock.token,
            locked_until: lock.locked_until,
            origin: DeliveryOrigin::Ready,
        },
        ..record
    };
    message::stored_messages_read_back(locked);
    let counters = machine::counters_of(m, c)->Ok_0;
    codec::stored_values_read_back::<QueueCounters>(
        QueueCounters { next_lock_token: queue::bump(counters.next_lock_token), ..counters },
    );
}

proof fn tokens_come_from_the_counters(m: Contents, c: CommandView, received: DeliveryView)
    requires
        c.kind is Receive,
        c.kind->Receive_mode == ReceiveMode::PeekLock,
        apply::applied(m, c).0 == Ok::<OutcomeView, ErrorView>(
            OutcomeView::Received(Some(received)),
        ),
    ensures
        ({
            let token = machine::next_token(m, c.namespace, c.entity);
            &&& received.lock matches Some(lock)
            &&& lock.token == LockToken(token)
            &&& machine::next_token(apply::applied(m, c).1, c.namespace, c.entity) == queue::bump(
                token,
            )
        }),
{
    broadcast use history::one_more_change;

    keys_begin_with_their_tags();
    let prefix = ready_prefix(c, c.kind->Receive_session);
    let config = delivery::receivable(m, c)->Ok_0;
    let ready = storage::scan(m, prefix, prefix, machine::MAX_RECEIVE_SCAN);
    let (at, record, staged) = a_delivery_is_ready(
        m,
        c,
        config,
        c.kind->Receive_mode,
        c.kind->Receive_lock_duration_millis,
        ready,
        Seq::empty(),
    );
    let counters = machine::counters_of(m, c)->Ok_0;
    codec::stored_values_read_back::<QueueCounters>(
        QueueCounters { next_lock_token: queue::bump(counters.next_lock_token), ..counters },
    );
}

proof fn tokens_never_go_back(
    m: Contents,
    commands: Seq<CommandView>,
    namespace: Seq<char>,
    entity: Seq<char>,
)
    requires
        m.dom().finite(),
    ensures
        machine::next_token(history::replayed(m, commands).1, namespace, entity)
            >= machine::next_token(m, namespace, entity),
        history::replayed(m, commands).1.dom().finite(),
    decreases commands.len(),
{
    if commands.len() > 0 {
        tokens_never_go_back(m, commands.drop_last(), namespace, entity);
        let before = history::replayed(m, commands.drop_last()).1;
        isolation::numbers_are_never_given_back(before, commands.last(), namespace, entity);
        history::a_store_stays_finite(before, commands.last());
    }
}

/// No two deliveries of an entity are locked with the same token, whatever happens
/// between them, as long as there are tokens left: who was given a lock once cannot
/// settle what another holds.
pub proof fn lock_tokens_are_never_reused(
    m: Contents,
    c: CommandView,
    received: DeliveryView,
    between: Seq<CommandView>,
    later: CommandView,
    received_later: DeliveryView,
)
    requires
        m.dom().finite(),
        c.kind is Receive,
        c.kind->Receive_mode == ReceiveMode::PeekLock,
        apply::applied(m, c).0 == Ok::<OutcomeView, ErrorView>(
            OutcomeView::Received(Some(received)),
        ),
        later.kind is Receive,
        later.kind->Receive_mode == ReceiveMode::PeekLock,
        later.namespace == c.namespace,
        later.entity == c.entity,
        apply::applied(history::replayed(apply::applied(m, c).1, between).1, later).0 == Ok::<
            OutcomeView,
            ErrorView,
        >(OutcomeView::Received(Some(received_later))),
        machine::next_token(m, c.namespace, c.entity) < u64::MAX,
    ensures
        received.lock matches Some(lock) && received_later.lock matches Some(lock_later)
            && lock.token != lock_later.token,
{
    let after = apply::applied(m, c).1;
    history::a_store_stays_finite(m, c);
    tokens_come_from_the_counters(m, c, received);
    tokens_never_go_back(after, between, c.namespace, c.entity);
    tokens_come_from_the_counters(history::replayed(after, between).1, later, received_later);
}

/// A message that was received without a lock is gone.
pub proof fn messages_received_for_good_are_gone(
    m: Contents,
    c: CommandView,
    received: DeliveryView,
)
    requires
        c.kind is Receive,
        c.kind->Receive_mode == ReceiveMode::ReceiveAndDelete,
        apply::applied(m, c).0 == Ok::<OutcomeView, ErrorView>(
            OutcomeView::Received(Some(received)),
        ),
    ensures
        machine::message_at(apply::applied(m, c).1, c.namespace, c.entity, received.sequence)
            == Ok::<Option<RecordView>, ErrorView>(None),
{
    broadcast use history::one_more_change;

    keys_begin_with_their_tags();
    let prefix = ready_prefix(c, c.kind->Receive_session);
    let (_, record, _) = a_delivery_is_ready(
        m,
        c,
        delivery::receivable(m, c)->Ok_0,
        c.kind->Receive_mode,
        c.kind->Receive_lock_duration_millis,
        storage::scan(m, prefix, prefix, machine::MAX_RECEIVE_SCAN),
        Seq::empty(),
    );
}

// ---- settling --------------------------------------------------------------

/// The message and the token that a settlement presents.
pub open spec fn settled_by(c: CommandView) -> Option<(SequenceNumber, LockToken)> {
    match c.kind {
        KindView::Complete { sequence, lock_token } => Some((sequence, lock_token)),
        KindView::Abandon { sequence, lock_token, .. } => Some((sequence, lock_token)),
        KindView::Defer { sequence, lock_token, .. } => Some((sequence, lock_token)),
        KindView::DeadLetter { sequence, lock_token, .. } => Some((sequence, lock_token)),
        KindView::RenewLock { sequence, lock_token, .. } => Some((sequence, lock_token)),
        _ => None,
    }
}

/// Only the holder of a lock settles its message, and only until the lock ends:
/// whoever presents another token, or comes too late, is refused and changes
/// nothing.
pub proof fn only_the_holder_settles(m: Contents, c: CommandView)
    requires
        settled_by(c) is Some,
        !(machine::message_at(m, c.namespace, c.entity, settled_by(c)->Some_0.0) matches Ok(
            Some(record),
        ) && record.state matches MessageState::Locked { token, locked_until, .. } && token
            == settled_by(c)->Some_0.1 && c.issued_at.0 < locked_until.0),
    ensures
        apply::applied(m, c).0 is Err,
        apply::applied(m, c).1 == m,
{
}

/// A message that is completed is gone, with its lock.
pub proof fn completed_messages_are_gone(m: Contents, c: CommandView)
    requires
        c.kind is Complete,
        apply::applied(m, c).0 is Ok,
    ensures
        ({
            let after = apply::applied(m, c).1;
            let sequence = c.kind->Complete_sequence;
            &&& machine::message_at(after, c.namespace, c.entity, sequence) == Ok::<
                Option<RecordView>,
                ErrorView,
            >(None)
            &&& machine::message_at(m, c.namespace, c.entity, sequence) matches Ok(Some(record))
            &&& record.state matches MessageState::Locked { locked_until, .. }
            &&& !after.dom().contains(
                keys::lock_key(c.namespace, c.entity, locked_until, sequence),
            )
        }),
{
    broadcast use history::one_more_change;

    keys_begin_with_their_tags();
}

/// A message that is received under a lock can be completed with the token of
/// the delivery until the lock ends.
pub proof fn a_delivery_can_be_completed(
    m: Contents,
    c: CommandView,
    received: DeliveryView,
    complete: CommandView,
)
    requires
        c.kind is Receive,
        c.kind->Receive_mode == ReceiveMode::PeekLock,
        apply::applied(m, c).0 == Ok::<OutcomeView, ErrorView>(
            OutcomeView::Received(Some(received)),
        ),
        machine::message_at(m, c.namespace, c.entity, received.sequence) matches Ok(Some(record))
            && <MessageRecord as Wire>::fits(record) && record.sequence == received.sequence,
        complete.namespace == c.namespace,
        complete.entity == c.entity,
        complete.kind == (KindView::Complete {
            sequence: received.sequence,
            lock_token: received.lock->Some_0.token,
        }),
        c.issued_at.0 <= complete.issued_at.0 < received.lock->Some_0.locked_until.0,
    ensures
        apply::applied(apply::applied(m, c).1, complete).0 == Ok::<OutcomeView, ErrorView>(
            OutcomeView::Completed,
        ),
{
    received_messages_are_locked(m, c, received);
    history::the_clock_never_goes_back(m, c);
}

/// A message that is given up goes back to where it came from as it was, but for
/// the envelope that was put in place of its own. One that has been delivered
/// too often, or has outlived its lifetime, goes to the dead-letter queue.
pub proof fn abandoned_messages_come_back(m: Contents, c: CommandView, record: RecordView)
    requires
        c.kind is Abandon,
        apply::applied(m, c).0 is Ok,
        machine::message_at(m, c.namespace, c.entity, c.kind->Abandon_sequence) == Ok::<
            Option<RecordView>,
            ErrorView,
        >(Some(record)),
        record.sequence == c.kind->Abandon_sequence,
        <MessageRecord as Wire>::fits(record),
        c.kind->Abandon_replacement_envelope matches Some(envelope) ==> <MessageRecord as Wire>::fits(
            RecordView { envelope: Some(message::stored_envelope(envelope)), ..record },
        ),
    ensures
        ({
            let after = apply::applied(m, c).1;
            let sequence = record.sequence;
            let kept = RecordView {
                envelope: match c.kind->Abandon_replacement_envelope {
                    Some(envelope) => Some(message::stored_envelope(envelope)),
                    None => record.envelope,
                },
                ..record
            };
            &&& apply::applied(m, c).0 matches Ok(OutcomeView::Abandoned { dead_lettered })
            &&& if dead_lettered {
                machine::message_at(after, c.namespace, c.entity, sequence) == Ok::<
                    Option<RecordView>,
                    ErrorView,
                >(None)
            } else {
                &&& record.state->Locked_origin == DeliveryOrigin::Ready ==> {
                    let ready = RecordView { state: MessageState::Ready, ..kept };
                    &&& machine::message_at(after, c.namespace, c.entity, sequence) == Ok::<
                        Option<RecordView>,
                        ErrorView,
                    >(Some(ready))
                    &&& after.dom().contains(shared::ready_entry(c, ready))
                }
                &&& record.state->Locked_origin == DeliveryOrigin::Deferred ==> {
                    &&& machine::message_at(after, c.namespace, c.entity, sequence) == Ok::<
                        Option<RecordView>,
                        ErrorView,
                    >(Some(RecordView { state: MessageState::Deferred, ..kept }))
                    &&& after.dom().contains(keys::deferred_key(c.namespace, c.entity, sequence))
                }
                &&& record.state->Locked_origin != DeliveryOrigin::Scheduled
            }
        }),
{
    broadcast use history::one_more_change;

    keys_begin_with_their_tags();
    let kept = RecordView {
        envelope: match c.kind->Abandon_replacement_envelope {
            Some(envelope) => Some(message::stored_envelope(envelope)),
            None => record.envelope,
        },
        ..record
    };
    message::stored_messages_read_back(RecordView { state: MessageState::Ready, ..kept });
    message::stored_messages_read_back(RecordView { state: MessageState::Deferred, ..kept });
    dead_letters_leave_their_queue(c, kept);
}

/// The key of a message in a queue and in its dead-letter queue differ.
pub(crate) proof fn dead_letters_leave_their_queue(c: CommandView, record: RecordView)
    ensures
        machine::shadow_of(c.entity) matches Ok(shadow) ==> keys::message_key(
            c.namespace,
            shadow,
            record.sequence,
        ) != keys::message_key(c.namespace, c.entity, record.sequence),
{
    a_shadow_is_another_path(c.entity);
    if let Ok(shadow) = machine::shadow_of(c.entity) {
        if keys::message_key(c.namespace, shadow, record.sequence) == keys::message_key(
            c.namespace,
            c.entity,
            record.sequence,
        ) {
            messages_have_their_own_keys(
                c.namespace,
                shadow,
                record.sequence,
                c.entity,
                record.sequence,
            );
        }
    }
}

/// A message that is dead-lettered leaves its queue and stands ready in the
/// dead-letter queue, under its old number, with the reason that was given.
pub proof fn dead_letters_wait_in_the_dead_letter_queue(
    m: Contents,
    c: CommandView,
    record: RecordView,
)
    requires
        c.kind is DeadLetter,
        apply::applied(m, c).0 is Ok,
        machine::message_at(m, c.namespace, c.entity, c.kind->DeadLetter_sequence) == Ok::<
            Option<RecordView>,
            ErrorView,
        >(Some(record)),
        record.sequence == c.kind->DeadLetter_sequence,
        c.kind->DeadLetter_replacement_envelope is None,
        <MessageRecord as Wire>::fits(dead_letter_of(c, record)),
    ensures
        ({
            let after = apply::applied(m, c).1;
            &&& apply::applied(m, c).0 == Ok::<OutcomeView, ErrorView>(OutcomeView::DeadLettered)
            &&& machine::message_at(after, c.namespace, c.entity, record.sequence) == Ok::<
                Option<RecordView>,
                ErrorView,
            >(None)
            &&& machine::shadow_of(c.entity) matches Ok(shadow)
            &&& machine::message_at(after, c.namespace, shadow, record.sequence) == Ok::<
                Option<RecordView>,
                ErrorView,
            >(Some(dead_letter_of(c, record)))
            &&& after.dom().contains(keys::ready_key(c.namespace, shadow, record.sequence))
        }),
{
    broadcast use history::one_more_change;

    keys_begin_with_their_tags();
    message::stored_messages_read_back(dead_letter_of(c, record));
    dead_letters_leave_their_queue(c, record);
}

/// A message as a request to dead-letter it leaves it.
pub open spec fn dead_letter_of(c: CommandView, record: RecordView) -> RecordView {
    shared::dead_record(
        record,
        message::DeadLetterReasonView::Application(c.kind->DeadLetter_reason),
        c.kind->DeadLetter_description,
        c.issued_at,
    )
}

/// A lock that is renewed keeps its token and ends at the new deadline.
pub proof fn renewed_locks_keep_their_token(m: Contents, c: CommandView, record: RecordView)
    requires
        c.kind is RenewLock,
        apply::applied(m, c).0 is Ok,
        machine::message_at(m, c.namespace, c.entity, c.kind->RenewLock_sequence) == Ok::<
            Option<RecordView>,
            ErrorView,
        >(Some(record)),
        <MessageRecord as Wire>::fits(record),
    ensures
        ({
            let after = apply::applied(m, c).1;
            let sequence = c.kind->RenewLock_sequence;
            &&& apply::applied(m, c).0 matches Ok(OutcomeView::LockRenewed { locked_until, .. })
            &&& machine::message_at(after, c.namespace, c.entity, sequence) == Ok::<
                Option<RecordView>,
                ErrorView,
            >(
                Some(
                    RecordView {
                        state: MessageState::Locked {
                            token: record.state->Locked_token,
                            locked_until,
                            origin: record.state->Locked_origin,
                        },
                        ..record
                    },
                ),
            )
            &&& after.dom().contains(
                keys::lock_key(c.namespace, c.entity, locked_until, sequence),
            )
        }),
{
    broadcast use history::one_more_change;

    keys_begin_with_their_tags();
    let config = machine::config_of(m, c)->Ok_0;
    let locked_until = time::later(
        c.issued_at,
        delivery::lock_millis(config, c.kind->RenewLock_lock_duration_millis),
    );
    message::stored_messages_read_back(
        RecordView {
            state: MessageState::Locked {
                token: record.state->Locked_token,
                locked_until,
                origin: record.state->Locked_origin,
            },
            ..record
        },
    );
}

/// A message that is deferred waits in its queue under its number, out of the
/// ready index, and is found by that number.
pub proof fn deferred_messages_wait_under_their_number(
    m: Contents,
    c: CommandView,
    record: RecordView,
)
    requires
        c.kind is Defer,
        apply::applied(m, c).0 is Ok,
        machine::message_at(m, c.namespace, c.entity, c.kind->Defer_sequence) == Ok::<
            Option<RecordView>,
            ErrorView,
        >(Some(record)),
        <MessageRecord as Wire>::fits(record),
        c.kind->Defer_replacement_envelope is None,
    ensures
        ({
            let after = apply::applied(m, c).1;
            let sequence = c.kind->Defer_sequence;
            let waiting = RecordView { state: MessageState::Deferred, ..record };
            &&& apply::applied(m, c).0 == Ok::<OutcomeView, ErrorView>(OutcomeView::Deferred)
            &&& after.dom().contains(keys::deferred_key(c.namespace, c.entity, sequence))
            &&& deferred::deferred_message(after, c, sequence, record.session_id) == Ok::<
                RecordView,
                ErrorView,
            >(waiting)
            &&& after.dom().contains(shared::ready_entry(c, record)) == m.dom().contains(
                shared::ready_entry(c, record),
            )
        }),
{
    broadcast use history::one_more_change;

    keys_begin_with_their_tags();
    message::stored_messages_read_back(RecordView { state: MessageState::Deferred, ..record });
}

// ---- scheduled messages ----------------------------------------------------

/// A scheduled message that is cancelled is gone before it is ever ready.
pub proof fn cancelled_messages_are_gone(m: Contents, c: CommandView, i: int)
    requires
        c.kind is CancelScheduled,
        apply::applied(m, c).0 is Ok,
        0 <= i < c.kind->CancelScheduled_sequences.len(),
    ensures
        machine::message_at(
            apply::applied(m, c).1,
            c.namespace,
            c.entity,
            c.kind->CancelScheduled_sequences[i],
        ) == Ok::<Option<RecordView>, ErrorView>(None),
{
    broadcast use history::one_more_change;

    keys_begin_with_their_tags();
    let sequences = c.kind->CancelScheduled_sequences;
    let due = scheduling::due_times(m, c, sequences, 0, Seq::empty())->Ok_0;
    removed_messages_are_gone(m, c, sequences, due, sequences.len() as int, i);
}

proof fn removed_messages_are_gone(
    m: Contents,
    c: CommandView,
    sequences: Seq<SequenceNumber>,
    due: Seq<Timestamp>,
    n: int,
    i: int,
)
    requires
        0 <= i < n <= sequences.len(),
    ensures
        !storage::apply_ops(
            m,
            scheduling::removed(c, sequences, due, n, Seq::empty()),
        ).dom().contains(keys::message_key(c.namespace, c.entity, sequences[i])),
    decreases n,
{
    broadcast use history::one_more_change;

    if i < n - 1 {
        removed_messages_are_gone(m, c, sequences, due, n - 1, i);
    }
}

// ---- sessions --------------------------------------------------------------

/// State that is stored for a session is what a later read gives back, for as
/// long as the session is held.
pub proof fn session_state_reads_back(m: Contents, c: CommandView, read: CommandView)
    requires
        c.kind is SetSessionState,
        apply::applied(m, c).0 is Ok,
        c.kind->SetSessionState_state.len() <= usize::MAX,
        read.namespace == c.namespace,
        read.entity == c.entity,
        read.kind == (KindView::GetSessionState { session: c.kind->SetSessionState_session }),
        c.issued_at.0 <= read.issued_at.0,
        read.issued_at.0 < shared::held_session(
            m,
            c,
            c.kind->SetSessionState_session,
        )->Ok_0.lock->Some_0.locked_until.0,
    ensures
        apply::applied(apply::applied(m, c).1, read).0 == Ok::<OutcomeView, ErrorView>(
            OutcomeView::SessionState(c.kind->SetSessionState_state),
        ),
{
    broadcast use history::one_more_change;

    keys_begin_with_their_tags();
    history::the_clock_never_goes_back(m, c);
    let record = shared::held_session(m, c, c.kind->SetSessionState_session)->Ok_0;
    codec::stored_values_read_back::<SessionRecord>(
        SessionView { state: c.kind->SetSessionState_state, ..record },
    );
}

/// A session that is accepted is held under the token that was handed out, and
/// nobody else is given it until that lock ends.
pub proof fn accepted_sessions_are_held(
    m: Contents,
    c: CommandView,
    rival: CommandView,
    id: Seq<char>,
)
    requires
        c.kind is AcceptSession,
        c.kind->AcceptSession_session_id == Some(id),
        apply::applied(m, c).0 is Ok,
        machine::session_of(m, c, id)->Ok_0.state.len() <= usize::MAX,
        rival.kind is AcceptSession,
        rival.kind->AcceptSession_session_id == Some(id),
        rival.namespace == c.namespace,
        rival.entity == c.entity,
        c.issued_at.0 <= rival.issued_at.0,
        rival.issued_at.0 < time::later(
            c.issued_at,
            delivery::lock_millis(
                machine::config_of(m, c)->Ok_0,
                c.kind->AcceptSession_lock_duration_millis,
            ),
        ).0,
    ensures
        ({
            let after = apply::applied(m, c).1;
            &&& apply::applied(m, c).0 matches Ok(OutcomeView::SessionAccepted(Some(accepted)))
            &&& accepted.session_id == id
            &&& accepted.state == machine::session_of(m, c, id)->Ok_0.state
            &&& shared::held_session(
                after,
                rival,
                HoldView { session_id: id, token: accepted.lock.token },
            ) is Ok
            &&& apply::applied(after, rival) == (
                Err::<OutcomeView, ErrorView>(ErrorView::SessionAlreadyLocked { session_id: id }),
                after,
            )
        }),
{
    broadcast use history::one_more_change;

    keys_begin_with_their_tags();
    history::the_clock_never_goes_back(m, c);
    let config = machine::config_of(m, c)->Ok_0;
    let record = machine::session_of(m, c, id)->Ok_0;
    let counters = machine::counters_of(m, c)->Ok_0;
    let lock = crate::domain::session::SessionLock {
        token: LockToken(counters.next_lock_token),
        locked_until: time::later(
            c.issued_at,
            delivery::lock_millis(config, c.kind->AcceptSession_lock_duration_millis),
        ),
    };
    let held = SessionView { lock: Some(lock), ..record };
    codec::stored_values_read_back::<SessionRecord>(held);
    let after = apply::applied(m, c).1;
    assert(machine::session_of(after, rival, id) == Ok::<SessionView, ErrorView>(held));
    assert(machine::config_of(after, rival) == machine::config_of(m, c));
}

/// A session that is released is free, and its state stays.
pub proof fn released_sessions_keep_their_state(m: Contents, c: CommandView)
    requires
        c.kind is ReleaseSession,
        apply::applied(m, c).0 is Ok,
        shared::held_session(m, c, c.kind->ReleaseSession_session)->Ok_0.state.len() <= usize::MAX,
    ensures
        ({
            let hold = c.kind->ReleaseSession_session;
            let record = shared::held_session(m, c, hold)->Ok_0;
            machine::session_of(apply::applied(m, c).1, c, hold.session_id) == Ok::<
                SessionView,
                ErrorView,
            >(SessionView { lock: None, state: record.state })
        }),
{
    broadcast use history::one_more_change;

    keys_begin_with_their_tags();
    let hold = c.kind->ReleaseSession_session;
    let record = shared::held_session(m, c, hold)->Ok_0;
    codec::stored_values_read_back::<SessionRecord>(SessionView { lock: None, ..record });
}

/// Whoever does not hold a session receives nothing from it, and cannot release
/// it, renew its lock, or touch its state.
pub proof fn only_the_holder_uses_a_session(m: Contents, c: CommandView, hold: HoldView)
    requires
        c.kind == (KindView::ReleaseSession { session: hold }) || c.kind == (
        KindView::GetSessionState { session: hold }) || (c.kind is RenewSessionLock
            && c.kind->RenewSessionLock_session == hold) || (c.kind is SetSessionState
            && c.kind->SetSessionState_session == hold) || (c.kind is Receive
            && c.kind->Receive_session == Some(hold)) || (c.kind is ReceiveDeferred
            && c.kind->ReceiveDeferred_session == Some(hold)),
        shared::held_session(m, c, hold) is Err,
    ensures
        apply::applied(m, c).0 is Err,
        apply::applied(m, c).1 == m,
{
}

// ---- topics ----------------------------------------------------------------

/// A message that is published to a topic, alone or in a batch, reaches every
/// subscription whose rules select it, as a copy under the number that the topic gave
/// it, and no other. When the topic has run out of numbers, and several messages share
/// the last one, this holds of none of them.
pub proof fn publications_reach_the_subscriptions_that_select_them(
    m: Contents,
    c: CommandView,
    path: Seq<char>,
    sequences: Seq<SequenceNumber>,
    i: int,
)
    requires
        c.kind is Send || c.kind is SendBatch,
        topic::topic_of(m, c) is Ok,
        apply::applied(m, c).0 matches Ok(
            OutcomeView::Published { sequences: given, .. },
        ) && given == sequences,
        0 <= i < sent_inputs(c).len(),
        forall|j: int| 0 <= j < sequences.len() && j != i ==> sequences[j] != sequences[i],
        subscribed(m, c)->Ok_0.contains(path),
        <MessageRecord as Wire>::fits(
            published_copy(m, c, path, sent_inputs(c)[i], sequences[i]),
        ),
    ensures
        sequences.len() == sent_inputs(c).len(),
        machine::message_at(apply::applied(m, c).1, c.namespace, path, sequences[i]) == (
        if selected_by(m, c, path, sent_inputs(c)[i]) {
            Ok::<Option<RecordView>, ErrorView>(
                Some(published_copy(m, c, path, sent_inputs(c)[i], sequences[i])),
            )
        } else {
            machine::message_at(m, c.namespace, path, sequences[i])
        }),
{
    let inputs = sent_inputs(c);
    let config = topic::topic_of(m, c)->Ok_0;
    let paths = subscribed(m, c)->Ok_0;
    let subscribers = topic::subscribers_from(m, c.namespace, paths, 0, Seq::empty())->Ok_0;
    let state = publication_start(m, c);
    let key = keys::message_key(c.namespace, path, sequences[i]);
    publications_are_fanned_out(m, c, sequences, key);
    every_path_has_its_subscriber(m, c.namespace, paths, 0, Seq::empty());
    as_many_numbers_as_asked_for(state.1, inputs.len());
    batches_follow_the_rules(m, c, config, inputs, subscribers, 0, state, path, i, sequences[i]);
    let at = choose|k: int| 0 <= k < paths.len() && paths[k] == path;
    assert(subscribers[at].path == path);
    message::stored_messages_read_back(
        published_copy(m, c, path, inputs[i], sequences[i]),
    );
}

/// Where a publication starts from: nothing is changed, nobody has received anything,
/// and the topic's numbers go on.
pub(crate) open spec fn publication_start(m: Contents, c: CommandView) -> topic::PublishState {
    (
        (Seq::empty(), Seq::new(subscribed(m, c)->Ok_0.len(), |i: int| false)),
        machine::counters_of(m, c)->Ok_0.next_sequence,
    )
}

/// Whatever is published is fanned out; beside that only counters and the clock change.
pub(crate) proof fn publications_are_fanned_out(
    m: Contents,
    c: CommandView,
    sequences: Seq<SequenceNumber>,
    key: Seq<u8>,
)
    requires
        c.kind is Send || c.kind is SendBatch,
        topic::topic_of(m, c) is Ok,
        apply::applied(m, c).0 matches Ok(
            OutcomeView::Published { sequences: given, .. },
        ) && given == sequences,
        key.len() > 0,
        key[0] == keys::TAG_MESSAGE,
    ensures
        ({
            let subscribers = topic::subscribers_from(
                m,
                c.namespace,
                subscribed(m, c)->Ok_0,
                0,
                Seq::empty(),
            );
            let published = topic::publish_from(
                c,
                topic::topic_of(m, c)->Ok_0,
                sent_inputs(c),
                subscribers->Ok_0,
                0,
                publication_start(m, c),
            );
            &&& subscribed(m, c) is Ok
            &&& subscribers is Ok
            &&& published is Ok
            &&& sequences == send::numbers(publication_start(m, c).1, sent_inputs(c).len())
            &&& agree_on(
                storage::apply_ops(m, published->Ok_0.0.0),
                apply::applied(m, c).1,
                key,
            )
        }),
{
    broadcast use history::one_more_change;

    keys_begin_with_their_tags();
}

/// What is published under one number leaves the messages under another alone.
proof fn copies_leave_other_numbers_alone(
    m: Contents,
    c: CommandView,
    config: TopicConfig,
    input: InputView,
    sequence: SequenceNumber,
    properties: PropertiesView,
    subscribers: Seq<topic::Subscriber>,
    i: int,
    state: topic::FanoutState,
    path: Seq<char>,
    n: SequenceNumber,
)
    requires
        0 <= i <= subscribers.len(),
        sequence != n,
    ensures
        agree_on(
            storage::apply_ops(m, state.0),
            storage::apply_ops(
                m,
                topic::fan_out(
                    c,
                    config,
                    input,
                    sequence,
                    properties,
                    subscribers,
                    i,
                    state,
                ).0,
            ),
            keys::message_key(c.namespace, path, n),
        ),
    decreases subscribers.len() - i,
{
    broadcast use history::one_more_change;

    keys_begin_with_their_tags();
    if i < subscribers.len() {
        let this = subscribers[i];
        let copy = topic::copy_of(c, input, sequence, config, this.config);
        let next = if topic::any_selects(this.rules, properties) {
            (topic::copy_changes(c, this.path, copy, state.0), state.1.update(i, true))
        } else {
            state
        };
        let key = keys::message_key(c.namespace, path, n);
        if keys::message_key(c.namespace, this.path, sequence) == key {
            messages_have_their_own_keys(c.namespace, this.path, sequence, path, n);
        }
        assert(agree_on(storage::apply_ops(m, state.0), storage::apply_ops(m, next.0), key));
        copies_leave_other_numbers_alone(
            m,
            c,
            config,
            input,
            sequence,
            properties,
            subscribers,
            i + 1,
            next,
            path,
            n,
        );
    }
}

/// In a batch, each message reaches whom its own rules select: what comes before and
/// behind it has other numbers.
pub(crate) proof fn batches_follow_the_rules(
    m: Contents,
    c: CommandView,
    config: TopicConfig,
    inputs: Seq<InputView>,
    subscribers: Seq<topic::Subscriber>,
    k: int,
    state: topic::PublishState,
    path: Seq<char>,
    i: int,
    n: SequenceNumber,
)
    requires
        0 <= k <= inputs.len(),
        0 <= i < inputs.len(),
        topic::publish_from(c, config, inputs, subscribers, k, state) is Ok,
        forall|a: int, b: int|
            #![trigger subscribers[a], subscribers[b]]
            0 <= a < subscribers.len() && 0 <= b < subscribers.len() && subscribers[a].path
                == subscribers[b].path ==> subscribers[a] == subscribers[b],
        k <= i ==> send::numbers(state.1, (inputs.len() - k) as nat)[i - k] == n,
        forall|j: int|
            0 <= j < inputs.len() - k && j != i - k ==> (#[trigger] send::numbers(
                state.1,
                (inputs.len() - k) as nat,
            )[j]) != n,
    ensures
        ({
            let properties = rule::canonical_view(topic::inspected(inputs[i]))->Ok_0;
            let after = storage::apply_ops(
                m,
                topic::publish_from(c, config, inputs, subscribers, k, state)->Ok_0.0.0,
            );
            let before = storage::apply_ops(m, state.0.0);
            let key = keys::message_key(c.namespace, path, n);
            if k > i {
                agree_on(before, after, key)
            } else {
                &&& forall|j: int|
                    0 <= j < subscribers.len() && (#[trigger] subscribers[j]).path == path
                        && topic::any_selects(subscribers[j].rules, properties)
                        ==> after.dom().contains(key) && after[key] == codec::encoded::<
                        MessageRecord,
                    >(topic::copy_of(c, inputs[i], n, config, subscribers[j].config))
                &&& (forall|j: int|
                    0 <= j < subscribers.len() && (#[trigger] subscribers[j]).path == path
                        ==> !topic::any_selects(subscribers[j].rules, properties)) ==> agree_on(
                    before,
                    after,
                    key,
                )
            }
        }),
    decreases inputs.len() - k,
{
    if k < inputs.len() {
        let left = (inputs.len() - k) as nat;
        let numbers = send::numbers(state.1, left);
        let rest = send::numbers(queue::bump(state.1), (left - 1) as nat);
        as_many_numbers_as_asked_for(queue::bump(state.1), (left - 1) as nat);
        assert(numbers == seq![SequenceNumber(state.1)] + rest);
        assert(numbers[0] == SequenceNumber(state.1));
        assert forall|j: int| 0 <= j < rest.len() implies #[trigger] rest[j] == numbers[j + 1] by {}
        let properties = rule::canonical_view(topic::inspected(inputs[k]))->Ok_0;
        let sequence = SequenceNumber(state.1);
        let fanned = topic::fan_out(
            c,
            config,
            inputs[k],
            sequence,
            properties,
            subscribers,
            0,
            state.0,
        );
        if k == i {
            copies_follow_the_rules(
                m,
                c,
                config,
                inputs[k],
                sequence,
                properties,
                subscribers,
                0,
                state.0,
                path,
            );
        } else {
            copies_leave_other_numbers_alone(
                m,
                c,
                config,
                inputs[k],
                sequence,
                properties,
                subscribers,
                0,
                state.0,
                path,
                n,
            );
        }
        batches_follow_the_rules(
            m,
            c,
            config,
            inputs,
            subscribers,
            k + 1,
            (fanned, queue::bump(state.1)),
            path,
            i,
            n,
        );
    }
}

/// The subscriptions of the topic that a command names.
pub open spec fn subscribed(m: Contents, c: CommandView) -> Result<Seq<Seq<char>>, ErrorView> {
    topic::subscriptions_of(m, c.namespace, c.entity, (MAX_TOPIC_SUBSCRIPTIONS + 1) as usize)
}

/// Whether a rule of the subscription selects a message.
pub open spec fn selected_by(
    m: Contents,
    c: CommandView,
    path: Seq<char>,
    input: InputView,
) -> bool {
    topic::any_selects(
        topic::subscriber(m, c.namespace, path)->Ok_0.rules,
        rule::canonical_view(topic::inspected(input))->Ok_0,
    )
}

/// The copy that a subscription receives of a message.
pub open spec fn published_copy(
    m: Contents,
    c: CommandView,
    path: Seq<char>,
    input: InputView,
    sequence: SequenceNumber,
) -> RecordView {
    topic::copy_of(
        c,
        input,
        sequence,
        topic::topic_of(m, c)->Ok_0,
        topic::subscriber(m, c.namespace, path)->Ok_0.config,
    )
}

pub(crate) proof fn every_path_has_its_subscriber(
    m: Contents,
    namespace: Seq<char>,
    paths: Seq<Seq<char>>,
    i: int,
    found: Seq<topic::Subscriber>,
)
    requires
        0 <= i <= paths.len(),
        found.len() == i,
        forall|j: int|
            0 <= j < i ==> Ok::<topic::Subscriber, ErrorView>(#[trigger] found[j])
                == topic::subscriber(m, namespace, paths[j]),
    ensures
        topic::subscribers_from(m, namespace, paths, i, found) matches Ok(all) ==> all.len()
            == paths.len() && forall|j: int|
            0 <= j < paths.len() ==> Ok::<topic::Subscriber, ErrorView>(#[trigger] all[j])
                == topic::subscriber(m, namespace, paths[j]) && all[j].path == paths[j],
    decreases paths.len() - i,
{
    if i < paths.len() {
        if let Ok(next) = topic::subscriber(m, namespace, paths[i]) {
            every_path_has_its_subscriber(m, namespace, paths, i + 1, found.push(next));
        }
    }
}

proof fn copies_follow_the_rules(
    m: Contents,
    c: CommandView,
    config: TopicConfig,
    input: InputView,
    sequence: SequenceNumber,
    properties: PropertiesView,
    subscribers: Seq<topic::Subscriber>,
    i: int,
    state: topic::FanoutState,
    path: Seq<char>,
)
    requires
        0 <= i <= subscribers.len(),
        forall|i: int, j: int|
            #![trigger subscribers[i], subscribers[j]]
            0 <= i < subscribers.len() && 0 <= j < subscribers.len() && subscribers[i].path
                == subscribers[j].path ==> subscribers[i] == subscribers[j],
    ensures
        ({
            let after = storage::apply_ops(
                m,
                topic::fan_out(
                    c,
                    config,
                    input,
                    sequence,
                    properties,
                    subscribers,
                    i,
                    state,
                ).0,
            );
            let before = storage::apply_ops(m, state.0);
            let key = keys::message_key(c.namespace, path, sequence);
            &&& forall|j: int|
                i <= j < subscribers.len() && (#[trigger] subscribers[j]).path == path
                    && topic::any_selects(subscribers[j].rules, properties)
                    ==> after.dom().contains(key) && after[key] == codec::encoded::<MessageRecord>(
                    topic::copy_of(c, input, sequence, config, subscribers[j].config),
                )
            &&& (forall|j: int|
                i <= j < subscribers.len() && (#[trigger] subscribers[j]).path == path
                    ==> !topic::any_selects(subscribers[j].rules, properties))
                ==> after.dom().contains(key) == before.dom().contains(key) && (
            before.dom().contains(key) ==> after[key] == before[key])
        }),
    decreases subscribers.len() - i,
{
    broadcast use history::one_more_change;

    keys_begin_with_their_tags();
    if i < subscribers.len() {
        let this = subscribers[i];
        let copy = topic::copy_of(c, input, sequence, config, this.config);
        let key = keys::message_key(c.namespace, path, sequence);
        let next = if topic::any_selects(this.rules, properties) {
            (topic::copy_changes(c, this.path, copy, state.0), state.1.update(i, true))
        } else {
            state
        };
        if keys::message_key(c.namespace, this.path, sequence) == key {
            messages_have_their_own_keys(c.namespace, this.path, sequence, path, sequence);
        }
        copies_follow_the_rules(
            m,
            c,
            config,
            input,
            sequence,
            properties,
            subscribers,
            i + 1,
            next,
            path,
        );
        let after = storage::apply_ops(
            m,
            topic::fan_out(c, config, input, sequence, properties, subscribers, i, state).0,
        );
        let middle = storage::apply_ops(m, next.0);
        if topic::any_selects(this.rules, properties) && this.path == path {
            assert(middle.dom().contains(key) && middle[key] == codec::encoded::<MessageRecord>(
                copy,
            ));
            if exists|j: int| i < j < subscribers.len() && (#[trigger] subscribers[j]).path == path {
                let j = choose|j: int|
                    i < j < subscribers.len() && (#[trigger] subscribers[j]).path == path;
                assert(subscribers[j] == subscribers[i]);
            }
            assert(after.dom().contains(key) && after[key] == codec::encoded::<MessageRecord>(
                copy,
            ));
        }
    }
}

} // verus!
