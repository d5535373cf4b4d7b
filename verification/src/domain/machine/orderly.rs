//! What every command keeps of a store: its messages and its ready indexes are
//! named as the broker names them, and hold what the broker writes.

use vstd::prelude::*;

use crate::bytes;
use crate::domain::codec;
use crate::domain::command::{CommandView, InputView, KindView};
use crate::domain::identifier;
use crate::domain::identifier::EntityPath;
use crate::domain::keys;
use crate::domain::machine;
use crate::domain::machine::apply;
use crate::domain::machine::history;
use crate::domain::machine::TIMER_SCAN_LIMIT;
use crate::domain::machine::{deferred, delivery, duplicate, expiry, scheduling, send, sessions};
use crate::domain::machine::{rules, shared, topic};
use crate::domain::message;
use crate::domain::message::{
    DeadLetterInfo, DeadLetterReason, DeadLetterReasonView, DeliveryOrigin, EnvelopeView,
    MessageEnvelope, MessageRecord, ReceiveMode, RecordView, SequenceNumber,
};
use crate::domain::order;
use crate::domain::queue::{QueueConfig, QueueCounters};
use crate::domain::time::Timestamp;
use crate::domain::topic::TopicConfig;
use crate::domain::wire::Wire;
use crate::storage;
use crate::storage::{Contents, OpView};

verus! {

// ---- what an orderly store is ----------------------------------------------

/// Whether a record can be stored and belongs to a session with a proper name, if
/// to any.
pub open spec fn orderly_record(record: RecordView) -> bool {
    &&& <MessageRecord as Wire>::fits(record)
    &&& record.session_id matches Some(id) ==> order::clean(id)
}

/// Whether `record`, stored as `value` under `key`, stands under its own number.
pub open spec fn stands_for(
    key: Seq<u8>,
    value: Seq<u8>,
    namespace: Seq<char>,
    entity: Seq<char>,
    record: RecordView,
) -> bool {
    &&& order::clean(namespace)
    &&& order::clean(entity)
    &&& orderly_record(record)
    &&& key == keys::message_key(namespace, entity, record.sequence)
    &&& value == codec::encoded::<MessageRecord>(record)
}

/// Whether a ready entry is named after a queue and a number.
pub open spec fn names_ready(
    key: Seq<u8>,
    namespace: Seq<char>,
    entity: Seq<char>,
    sequence: SequenceNumber,
) -> bool {
    &&& order::clean(namespace)
    &&& order::clean(entity)
    &&& key == keys::ready_key(namespace, entity, sequence)
}

/// Whether a ready entry is named after a queue, a session and a number.
pub open spec fn names_session_ready(
    key: Seq<u8>,
    namespace: Seq<char>,
    entity: Seq<char>,
    id: Seq<char>,
    sequence: SequenceNumber,
) -> bool {
    &&& order::clean(namespace)
    &&& order::clean(entity)
    &&& order::clean(id)
    &&& key == keys::session_ready_key(namespace, entity, id, sequence)
}

/// Whether a path is one that a topic can be created under: neither that of a
/// dead-letter queue nor of the shape of those below a topic.
pub open spec fn plain(path: Seq<char>) -> bool {
    &&& !identifier::names_dead_letter_queue(path)
    &&& !identifier::names_subscription(path)
}

/// Whether a text can name a subscription.
pub open spec fn is_name(name: Seq<char>) -> bool {
    identifier::name_fault(
        "subscription name",
        name,
        identifier::MAX_SUBSCRIPTION_NAME_CHARACTERS,
    ) is None
}

/// Whether a scheduled entry is named after a queue, a time and a number.
pub open spec fn names_scheduled(
    key: Seq<u8>,
    namespace: Seq<char>,
    entity: Seq<char>,
    at: Timestamp,
    sequence: SequenceNumber,
) -> bool {
    &&& order::clean(namespace)
    &&& order::clean(entity)
    &&& key == keys::scheduled_key(namespace, entity, at, sequence)
}

/// Whether the settings of a topic stand under a plain path.
pub open spec fn names_topic(key: Seq<u8>, namespace: Seq<char>, topic: Seq<char>) -> bool {
    &&& order::clean(namespace)
    &&& order::clean(topic)
    &&& plain(topic)
    &&& key == keys::topic_config_key(namespace, topic)
}

/// Whether a subscription stands under its topic and its name, with the path of the
/// queue behind it.
pub open spec fn names_subscriber(
    key: Seq<u8>,
    value: Seq<u8>,
    namespace: Seq<char>,
    topic: Seq<char>,
    name: Seq<char>,
) -> bool {
    let path = identifier::subscription_path(topic, name);
    &&& order::clean(namespace)
    &&& order::clean(topic)
    &&& plain(topic)
    &&& is_name(name)
    &&& order::clean(path)
    &&& <EntityPath as Wire>::fits(path)
    &&& key == keys::topic_subscription_key(namespace, topic, name)
    &&& value == codec::encoded::<EntityPath>(path)
}

/// Whether a value is that of counters.
pub open spec fn holds_counters(value: Seq<u8>) -> bool {
    exists|counters: QueueCounters| value == #[trigger] codec::encoded::<QueueCounters>(counters)
}

/// Whether a value is that of a time.
pub open spec fn holds_time(value: Seq<u8>) -> bool {
    exists|time: Timestamp| value == #[trigger] codec::encoded::<Timestamp>(time)
}

/// Whether an entry is one that the broker writes: a message under its own
/// number, a ready or scheduled entry with a number behind proper names, a topic,
/// a subscription below one, counters, or the clock. Nothing is asked of other
/// entries.
#[verifier::opaque]
pub open spec fn orderly_entry(key: Seq<u8>, value: Seq<u8>) -> bool {
    &&& key.len() > 0
    &&& key[0] == keys::TAG_MESSAGE ==> exists|
        namespace: Seq<char>,
        entity: Seq<char>,
        record: RecordView,
    | #[trigger] stands_for(key, value, namespace, entity, record)
    &&& key[0] == keys::TAG_READY ==> exists|
        namespace: Seq<char>,
        entity: Seq<char>,
        sequence: SequenceNumber,
    | #[trigger] names_ready(key, namespace, entity, sequence)
    &&& key[0] == keys::TAG_SESSION_READY ==> exists|
        namespace: Seq<char>,
        entity: Seq<char>,
        id: Seq<char>,
        sequence: SequenceNumber,
    | #[trigger] names_session_ready(key, namespace, entity, id, sequence)
    &&& key[0] == keys::TAG_SCHEDULED ==> exists|
        namespace: Seq<char>,
        entity: Seq<char>,
        at: Timestamp,
        sequence: SequenceNumber,
    | #[trigger] names_scheduled(key, namespace, entity, at, sequence)
    &&& key[0] == keys::TAG_TOPIC_CONFIG ==> exists|namespace: Seq<char>, topic: Seq<char>|
        #[trigger] names_topic(key, namespace, topic)
    &&& key[0] == keys::TAG_TOPIC_SUBSCRIPTION ==> exists|
        namespace: Seq<char>,
        topic: Seq<char>,
        name: Seq<char>,
    | #[trigger] names_subscriber(key, value, namespace, topic, name)
    &&& key[0] == keys::TAG_QUEUE_COUNTERS ==> holds_counters(value)
    &&& key[0] == keys::TAG_CLOCK ==> holds_time(value)
}

/// Whether a store holds only such entries.
pub open spec fn orderly(m: Contents) -> bool {
    forall|key: Seq<u8>| #[trigger] m.dom().contains(key) ==> orderly_entry(key, m[key])
}

/// Whether a change leaves such an entry, or none.
pub open spec fn orderly_op(op: OpView) -> bool {
    match op {
        OpView::Put { key, value } => orderly_entry(key, value),
        OpView::Delete { .. } => true,
    }
}

#[verifier::opaque]
pub open spec fn orderly_ops(ops: Seq<OpView>) -> bool {
    forall|i: int| 0 <= i < ops.len() ==> orderly_op(#[trigger] ops[i])
}

// ---- what a command brings -------------------------------------------------

/// Whether an envelope, if there is one, can be stored.
pub open spec fn fitting_envelope(envelope: Option<EnvelopeView>) -> bool {
    envelope matches Some(envelope) ==> <MessageEnvelope as Wire>::fits(envelope)
}

/// Whether a message can be stored: its texts have the length of texts in memory,
/// and its session has a proper name.
pub open spec fn orderly_input(input: InputView) -> bool {
    &&& <String as Wire>::fits(input.message_id)
    &&& input.body.len() <= usize::MAX
    &&& fitting_envelope(message::kept(input.envelope))
    &&& input.session_id matches Some(id) ==> order::clean(id) && <String as Wire>::fits(id)
}

/// Whether a command names its entity properly, and what it brings can be stored.
/// Identifiers see to the names, and memory to the lengths.
pub open spec fn orderly_command(c: CommandView) -> bool {
    &&& order::clean(c.namespace)
    &&& order::clean(c.entity)
    &&& match c.kind {
        KindView::Send {
            message_id,
            body,
            time_to_live_millis,
            session_id,
            scheduled_enqueue_at,
            envelope,
        } => orderly_input(
            InputView {
                message_id,
                body,
                time_to_live_millis,
                session_id,
                scheduled_enqueue_at,
                envelope,
            },
        ),
        KindView::SendBatch { messages } => forall|i: int|
            0 <= i < messages.len() ==> orderly_input(#[trigger] messages[i]),
        KindView::CreateSubscription { name, .. } => is_name(name),
        KindView::Abandon { replacement_envelope, .. } => fitting_envelope(
            message::kept(replacement_envelope),
        ),
        KindView::Defer { replacement_envelope, .. } => fitting_envelope(
            message::kept(replacement_envelope),
        ),
        KindView::DeadLetter { reason, description, replacement_envelope, .. } => {
            &&& <String as Wire>::fits(reason)
            &&& <String as Wire>::fits(description)
            &&& fitting_envelope(message::kept(replacement_envelope))
        },
        _ => true,
    }
}

// ---- entries ---------------------------------------------------------------

/// A record fits if its texts do.
proof fn records_fit_by_parts(record: RecordView)
    ensures
        <MessageRecord as Wire>::fits(record) <==> {
            &&& <String as Wire>::fits(record.message_id)
            &&& record.body.len() <= usize::MAX
            &&& record.session_id matches Some(id) ==> <String as Wire>::fits(id)
            &&& record.dead_letter matches Some(info) ==> <DeadLetterInfo as Wire>::fits(info)
            &&& fitting_envelope(record.envelope)
        },
{
}

/// A message with another envelope can be stored when the envelope can.
pub(crate) proof fn envelopes_change_nothing_else(
    record: RecordView,
    envelope: Option<EnvelopeView>,
)
    requires
        orderly_record(record),
        fitting_envelope(envelope),
    ensures
        orderly_record(RecordView { envelope, ..record }),
{
    records_fit_by_parts(record);
    records_fit_by_parts(RecordView { envelope, ..record });
}

/// The key of an entry of another kind.
proof fn other_kinds_are_orderly(tag: u8, key: Seq<u8>, value: Seq<u8>)
    requires
        key.len() > 0,
        key[0] == tag,
        tag != keys::TAG_MESSAGE,
        tag != keys::TAG_READY,
        tag != keys::TAG_SESSION_READY,
        tag != keys::TAG_SCHEDULED,
        tag != keys::TAG_TOPIC_CONFIG,
        tag != keys::TAG_TOPIC_SUBSCRIPTION,
        tag != keys::TAG_QUEUE_COUNTERS,
        tag != keys::TAG_CLOCK,
    ensures
        orderly_entry(key, value),
{
    reveal(orderly_entry);
}

broadcast proof fn configs_are_orderly(ns: Seq<char>, e: Seq<char>, value: Seq<u8>)
    ensures
        #[trigger] orderly_entry(keys::queue_config_key(ns, e), value),
{
    other_kinds_are_orderly(keys::TAG_QUEUE_CONFIG, keys::queue_config_key(ns, e), value);
}

broadcast proof fn counters_are_orderly(ns: Seq<char>, e: Seq<char>, counters: QueueCounters)
    ensures
        #[trigger] orderly_entry(
            keys::queue_counters_key(ns, e),
            codec::encoded::<QueueCounters>(counters),
        ),
{
    reveal(orderly_entry);
    assert(holds_counters(codec::encoded::<QueueCounters>(counters)));
}

broadcast proof fn locks_are_orderly(
    ns: Seq<char>,
    e: Seq<char>,
    t: Timestamp,
    n: SequenceNumber,
    value: Seq<u8>,
)
    ensures
        #[trigger] orderly_entry(keys::lock_key(ns, e, t, n), value),
{
    other_kinds_are_orderly(keys::TAG_LOCK, keys::lock_key(ns, e, t, n), value);
}

broadcast proof fn lifetimes_are_orderly(
    ns: Seq<char>,
    e: Seq<char>,
    t: Timestamp,
    n: SequenceNumber,
    value: Seq<u8>,
)
    ensures
        #[trigger] orderly_entry(keys::expiry_key(ns, e, t, n), value),
{
    other_kinds_are_orderly(keys::TAG_EXPIRY, keys::expiry_key(ns, e, t, n), value);
}

broadcast proof fn schedules_are_orderly(
    ns: Seq<char>,
    e: Seq<char>,
    t: Timestamp,
    n: SequenceNumber,
    value: Seq<u8>,
)
    requires
        order::clean(ns),
        order::clean(e),
    ensures
        #[trigger] orderly_entry(keys::scheduled_key(ns, e, t, n), value),
{
    reveal(orderly_entry);
    let key = keys::scheduled_key(ns, e, t, n);
    assert(key[0] == keys::TAG_SCHEDULED);
    assert(names_scheduled(key, ns, e, t, n));
}

broadcast proof fn deferrals_are_orderly(
    ns: Seq<char>,
    e: Seq<char>,
    n: SequenceNumber,
    value: Seq<u8>,
)
    ensures
        #[trigger] orderly_entry(keys::deferred_key(ns, e, n), value),
{
    other_kinds_are_orderly(keys::TAG_DEFERRED, keys::deferred_key(ns, e, n), value);
}

broadcast proof fn identifiers_are_orderly(
    ns: Seq<char>,
    e: Seq<char>,
    id: Seq<char>,
    value: Seq<u8>,
)
    ensures
        #[trigger] orderly_entry(keys::duplicate_id_key(ns, e, id), value),
{
    other_kinds_are_orderly(keys::TAG_DUPLICATE_ID, keys::duplicate_id_key(ns, e, id), value);
}

broadcast proof fn retentions_are_orderly(
    ns: Seq<char>,
    e: Seq<char>,
    t: Timestamp,
    id: Seq<char>,
    value: Seq<u8>,
)
    ensures
        #[trigger] orderly_entry(keys::duplicate_expiry_key(ns, e, t, id), value),
{
    other_kinds_are_orderly(
        keys::TAG_DUPLICATE_EXPIRY,
        keys::duplicate_expiry_key(ns, e, t, id),
        value,
    );
}

broadcast proof fn session_records_are_orderly(
    ns: Seq<char>,
    e: Seq<char>,
    id: Seq<char>,
    value: Seq<u8>,
)
    ensures
        #[trigger] orderly_entry(keys::session_key(ns, e, id), value),
{
    other_kinds_are_orderly(keys::TAG_SESSION, keys::session_key(ns, e, id), value);
}

broadcast proof fn session_locks_are_orderly(
    ns: Seq<char>,
    e: Seq<char>,
    t: Timestamp,
    id: Seq<char>,
    value: Seq<u8>,
)
    ensures
        #[trigger] orderly_entry(keys::session_lock_key(ns, e, t, id), value),
{
    other_kinds_are_orderly(keys::TAG_SESSION_LOCK, keys::session_lock_key(ns, e, t, id), value);
}

broadcast proof fn topics_are_orderly(ns: Seq<char>, e: Seq<char>, value: Seq<u8>)
    requires
        order::clean(ns),
        order::clean(e),
        plain(e),
    ensures
        #[trigger] orderly_entry(keys::topic_config_key(ns, e), value),
{
    reveal(orderly_entry);
    let key = keys::topic_config_key(ns, e);
    assert(key[0] == keys::TAG_TOPIC_CONFIG);
    assert(names_topic(key, ns, e));
}

broadcast proof fn rules_are_orderly(ns: Seq<char>, e: Seq<char>, name: Seq<char>, value: Seq<u8>)
    ensures
        #[trigger] orderly_entry(keys::subscription_rule_key(ns, e, name), value),
{
    other_kinds_are_orderly(
        keys::TAG_SUBSCRIPTION_RULE,
        keys::subscription_rule_key(ns, e, name),
        value,
    );
}

broadcast proof fn messages_are_orderly(ns: Seq<char>, e: Seq<char>, record: RecordView)
    requires
        order::clean(ns),
        order::clean(e),
        orderly_record(record),
    ensures
        #[trigger] orderly_entry(
            keys::message_key(ns, e, record.sequence),
            codec::encoded::<MessageRecord>(record),
        ),
{
    reveal(orderly_entry);
    let key = keys::message_key(ns, e, record.sequence);
    assert(key[0] == keys::TAG_MESSAGE);
    assert(stands_for(key, codec::encoded::<MessageRecord>(record), ns, e, record));
}

broadcast proof fn ready_entries_are_orderly(
    ns: Seq<char>,
    e: Seq<char>,
    n: SequenceNumber,
    value: Seq<u8>,
)
    requires
        order::clean(ns),
        order::clean(e),
    ensures
        #[trigger] orderly_entry(keys::ready_key(ns, e, n), value),
{
    reveal(orderly_entry);
    let key = keys::ready_key(ns, e, n);
    assert(key[0] == keys::TAG_READY);
    assert(names_ready(key, ns, e, n));
}

broadcast proof fn session_ready_entries_are_orderly(
    ns: Seq<char>,
    e: Seq<char>,
    id: Seq<char>,
    n: SequenceNumber,
    value: Seq<u8>,
)
    requires
        order::clean(ns),
        order::clean(e),
        order::clean(id),
    ensures
        #[trigger] orderly_entry(keys::session_ready_key(ns, e, id, n), value),
{
    reveal(orderly_entry);
    let key = keys::session_ready_key(ns, e, id, n);
    assert(key[0] == keys::TAG_SESSION_READY);
    assert(names_session_ready(key, ns, e, id, n));
}

broadcast proof fn subscriptions_are_orderly(
    ns: Seq<char>,
    e: Seq<char>,
    name: Seq<char>,
    path: Seq<char>,
)
    requires
        order::clean(ns),
        order::clean(e),
        plain(e),
        is_name(name),
        path == identifier::subscription_path(e, name),
        order::clean(path),
        <EntityPath as Wire>::fits(path),
    ensures
        #[trigger] orderly_entry(
            keys::topic_subscription_key(ns, e, name),
            codec::encoded::<EntityPath>(path),
        ),
{
    reveal(orderly_entry);
    let key = keys::topic_subscription_key(ns, e, name);
    assert(key[0] == keys::TAG_TOPIC_SUBSCRIPTION);
    assert(names_subscriber(key, codec::encoded::<EntityPath>(path), ns, e, name));
}

broadcast proof fn one_more_is_orderly(ops: Seq<OpView>, op: OpView)
    requires
        orderly_ops(ops),
        orderly_op(op),
    ensures
        #[trigger] orderly_ops(ops.push(op)),
{
    reveal(orderly_ops);
}

broadcast group group_orderly {
    configs_are_orderly,
    counters_are_orderly,
    locks_are_orderly,
    lifetimes_are_orderly,
    schedules_are_orderly,
    deferrals_are_orderly,
    identifiers_are_orderly,
    retentions_are_orderly,
    session_records_are_orderly,
    session_locks_are_orderly,
    topics_are_orderly,
    rules_are_orderly,
    messages_are_orderly,
    ready_entries_are_orderly,
    session_ready_entries_are_orderly,
    subscriptions_are_orderly,
    one_more_is_orderly,
}

// ---- what is read from such a store ----------------------------------------

/// A message that is read can be stored again, and carries the number under which
/// it was found.
pub proof fn messages_stand_under_their_numbers(
    m: Contents,
    namespace: Seq<char>,
    entity: Seq<char>,
    sequence: SequenceNumber,
)
    requires
        orderly(m),
    ensures
        machine::message_at(m, namespace, entity, sequence) is Ok,
        machine::message_at(m, namespace, entity, sequence) matches Ok(Some(record))
            ==> orderly_record(record) && record.sequence == sequence,
{
    let key = keys::message_key(namespace, entity, sequence);
    if m.dom().contains(key) {
        reveal(orderly_entry);
        assert(orderly_entry(key, m[key]));
        assert(key[0] == keys::TAG_MESSAGE);
        let (ns, e, record) = choose|ns: Seq<char>, e: Seq<char>, record: RecordView|
            stands_for(key, m[key], ns, e, record);
        message::stored_messages_read_back(record);
        order::sequences_read_back(keys::message_prefix_key(namespace, entity), sequence);
        order::sequences_read_back(keys::message_prefix_key(ns, e), record.sequence);
    }
}

/// Whether every path names a queue properly.
pub open spec fn clean_paths(paths: Seq<Seq<char>>) -> bool {
    forall|i: int| 0 <= i < paths.len() ==> order::clean(#[trigger] paths[i])
}

/// Whether a path is that of a subscription below a topic, which stands under `key`.
pub open spec fn stands_below(
    key: Seq<u8>,
    path: Seq<char>,
    namespace: Seq<char>,
    topic: Seq<char>,
    name: Seq<char>,
) -> bool {
    &&& is_name(name)
    &&& order::clean(path)
    &&& path == identifier::subscription_path(topic, name)
    &&& key == keys::topic_subscription_key(namespace, topic, name)
}

pub open spec fn stands_somewhere_below(
    key: Seq<u8>,
    path: Seq<char>,
    namespace: Seq<char>,
    topic: Seq<char>,
) -> bool {
    exists|name: Seq<char>| stands_below(key, path, namespace, topic, name)
}

spec fn path_of(value: Seq<u8>) -> Seq<char> {
    codec::decoded::<EntityPath>(value)->Ok_0
}

proof fn paths_follow_entries(entries: Seq<(Seq<u8>, Seq<u8>)>, i: int, found: Seq<Seq<char>>)
    requires
        0 <= i <= entries.len(),
        found.len() == i,
        forall|k: int| 0 <= k < i ==> #[trigger] found[k] == path_of(entries[k].1),
    ensures
        rules::values_from::<EntityPath>(entries, i, found) matches Ok(paths) ==> {
            &&& paths.len() == entries.len()
            &&& forall|k: int|
                0 <= k < paths.len() ==> #[trigger] paths[k] == path_of(entries[k].1)
        },
    decreases entries.len() - i,
{
    if i < entries.len() {
        if let Ok(path) = codec::decoded::<EntityPath>(entries[i].1) {
            paths_follow_entries(entries, i + 1, found.push(path));
        }
    }
}

/// The subscriptions of a topic are what the store says: each has a name of its own,
/// and the path that goes with it.
pub proof fn subscriptions_stand_below_their_topic(
    m: Contents,
    namespace: Seq<char>,
    topic: Seq<char>,
    limit: usize,
)
    requires
        m.dom().finite(),
        orderly(m),
        order::clean(namespace),
        order::clean(topic),
    ensures
        topic::subscriptions_of(m, namespace, topic, limit) matches Ok(paths) ==> {
            let prefix = keys::topic_subscription_prefix_key(namespace, topic);
            let entries = storage::scan(m, prefix, prefix, limit);
            &&& clean_paths(paths)
            &&& paths.len() == entries.len()
            &&& forall|k: int|
                #![trigger paths[k]]
                0 <= k < paths.len() ==> stands_somewhere_below(
                    entries[k].0,
                    paths[k],
                    namespace,
                    topic,
                )
            &&& forall|i: int, j: int|
                0 <= i < j < entries.len() ==> (#[trigger] entries[i]).0 != (
                #[trigger] entries[j]).0
        },
{
    let prefix = keys::topic_subscription_prefix_key(namespace, topic);
    let entries = storage::scan(m, prefix, prefix, limit);
    storage::walk_lists_the_selected_keys(m, prefix, prefix);
    let walked = storage::walk(m, prefix, prefix);
    assert forall|i: int, j: int| 0 <= i < j < entries.len() implies (#[trigger] entries[i]).0 != (
    #[trigger] entries[j]).0 by {
        assert(bytes::lex_lt(walked[i], walked[j]));
        bytes::lex_asymmetric(walked[i], walked[j]);
    }
    paths_follow_entries(entries, 0, Seq::empty());
    if let Ok(paths) = topic::subscriptions_of(m, namespace, topic, limit) {
        assert forall|k: int|
            #![trigger paths[k]]
            0 <= k < paths.len() implies stands_somewhere_below(
            entries[k].0,
            paths[k],
            namespace,
            topic,
        ) by {
            let key = walked[k];
            assert(walked.contains(key));
            assert(storage::selected(m, prefix, prefix).contains(key));
            assert(key.subrange(0, prefix.len() as int)[0] == prefix[0]);
            assert(orderly_entry(key, m[key]));
            reveal(orderly_entry);
            let (ns, t, name) = choose|ns: Seq<char>, t: Seq<char>, name: Seq<char>|
                names_subscriber(key, m[key], ns, t, name);
            order::a_key_lies_in_one_scope(
                keys::TAG_TOPIC_SUBSCRIPTION,
                namespace,
                topic,
                keys::TAG_TOPIC_SUBSCRIPTION,
                ns,
                t,
                bytes::utf8(name),
            );
            codec::stored_values_read_back::<EntityPath>(identifier::subscription_path(t, name));
            assert(stands_below(entries[k].0, paths[k], namespace, topic, name));
        }
        assert forall|k: int| 0 <= k < paths.len() implies order::clean(#[trigger] paths[k]) by {
            assert(stands_somewhere_below(entries[k].0, paths[k], namespace, topic));
        }
    }
}

/// A topic stands under a plain path.
pub proof fn topics_are_plain(m: Contents, namespace: Seq<char>, topic: Seq<char>)
    requires
        orderly(m),
        order::clean(namespace),
        order::clean(topic),
        m.dom().contains(keys::topic_config_key(namespace, topic)),
    ensures
        plain(topic),
{
    let key = keys::topic_config_key(namespace, topic);
    reveal(orderly_entry);
    assert(orderly_entry(key, m[key]));
    assert(key[0] == keys::TAG_TOPIC_CONFIG);
    let (ns, t) = choose|ns: Seq<char>, t: Seq<char>| names_topic(key, ns, t);
    assert(key =~= keys::scope_key(keys::TAG_TOPIC_CONFIG, ns, t) + Seq::<u8>::empty());
    assert(bytes::has_prefix(key, key)) by {
        assert(key.subrange(0, key.len() as int) =~= key);
    }
    order::a_key_lies_in_one_scope(
        keys::TAG_TOPIC_CONFIG,
        namespace,
        topic,
        keys::TAG_TOPIC_CONFIG,
        ns,
        t,
        Seq::empty(),
    );
}

/// What stands under the prefix of scheduled entries is one of them.
pub proof fn schedules_stand_under_their_queue(
    m: Contents,
    namespace: Seq<char>,
    entity: Seq<char>,
    limit: usize,
)
    requires
        m.dom().finite(),
        orderly(m),
        order::clean(namespace),
        order::clean(entity),
    ensures
        ({
            let prefix = keys::scheduled_prefix_key(namespace, entity);
            storage::scan(m, prefix, prefix, limit).len() > 0 ==> exists|
                at: Timestamp,
                n: SequenceNumber,
            | m.dom().contains(#[trigger] keys::scheduled_key(namespace, entity, at, n))
        }),
{
    let prefix = keys::scheduled_prefix_key(namespace, entity);
    let entries = storage::scan(m, prefix, prefix, limit);
    storage::walk_lists_the_selected_keys(m, prefix, prefix);
    let walked = storage::walk(m, prefix, prefix);
    if entries.len() > 0 {
        let key = walked[0];
        assert(walked.contains(key));
        assert(storage::selected(m, prefix, prefix).contains(key));
        assert(key.subrange(0, prefix.len() as int)[0] == prefix[0]);
        assert(orderly_entry(key, m[key]));
        reveal(orderly_entry);
        let (ns, e, at, n) = choose|ns: Seq<char>, e: Seq<char>, at: Timestamp, n: SequenceNumber|
            names_scheduled(key, ns, e, at, n);
        let rest = bytes::be(at.0 as nat, 8) + bytes::be(n.0 as nat, 8);
        assert(key =~= keys::scope_key(keys::TAG_SCHEDULED, ns, e) + rest);
        order::a_key_lies_in_one_scope(
            keys::TAG_SCHEDULED,
            namespace,
            entity,
            keys::TAG_SCHEDULED,
            ns,
            e,
            rest,
        );
    }
}

// ---- one step at a time ----------------------------------------------------

proof fn scalars_take_four_octets(c: u32)
    ensures
        vstd::utf8::encode_scalar(c).len() <= 4,
{
}

proof fn texts_take_four_octets_a_character(text: Seq<char>)
    ensures
        bytes::utf8(text).len() <= 4 * text.len(),
    decreases text.len(),
{
    if text.len() > 0 {
        texts_take_four_octets_a_character(text.drop_first());
        scalars_take_four_octets(text[0] as u32);
    }
}

/// The texts with which the broker dead-letters messages can be stored.
pub(crate) proof fn descriptions_fit()
    ensures
        <String as Wire>::fits("the message exceeded its time to live"@),
        <String as Wire>::fits("the message reached its maximum delivery count"@),
        <String as Wire>::fits("the deferred message exceeded its time to live"@),
        <String as Wire>::fits("$default"@),
{
    reveal_strlit("$default");
    texts_take_four_octets_a_character("$default"@);
    reveal_strlit("the message exceeded its time to live");
    reveal_strlit("the message reached its maximum delivery count");
    reveal_strlit("the deferred message exceeded its time to live");
    texts_take_four_octets_a_character("the message exceeded its time to live"@);
    texts_take_four_octets_a_character("the message reached its maximum delivery count"@);
    texts_take_four_octets_a_character("the deferred message exceeded its time to live"@);
}

/// A path that the broker made is a proper one.
pub(crate) proof fn internal_paths_are_clean(path: Seq<char>)
    ensures
        identifier::internal_path(path) matches Ok(made) ==> order::clean(made)
            && <EntityPath as Wire>::fits(made),
{
}

/// A message can be stored in the dead-letter queue as well as in its own.
pub(crate) proof fn dead_records_are_orderly(
    record: RecordView,
    reason: DeadLetterReasonView,
    description: Seq<char>,
    now: Timestamp,
)
    requires
        orderly_record(record),
        <DeadLetterReason as Wire>::fits(reason),
        <String as Wire>::fits(description),
    ensures
        orderly_record(shared::dead_record(record, reason, description, now)),
{
    records_fit_by_parts(record);
    records_fit_by_parts(shared::dead_record(record, reason, description, now));
}

proof fn dead_lettering_is_orderly(
    c: CommandView,
    record: RecordView,
    reason: DeadLetterReasonView,
    description: Seq<char>,
    batch: Seq<OpView>,
)
    requires
        orderly_ops(batch),
        order::clean(c.namespace),
        orderly_record(record),
        <DeadLetterReason as Wire>::fits(reason),
        <String as Wire>::fits(description),
    ensures
        shared::dead_lettered(c, record, reason, description, batch) matches Ok(changes)
            ==> orderly_ops(changes),
{
    broadcast use group_orderly;

    let dead = shared::dead_record(record, reason, description, c.issued_at);
    dead_records_are_orderly(record, reason, description, c.issued_at);
    assert(dead.sequence == record.sequence);
    internal_paths_are_clean(identifier::dead_letter_path(c.entity));
}

proof fn lifetimes_end_orderly(c: CommandView, record: RecordView, batch: Seq<OpView>)
    requires
        orderly_ops(batch),
        order::clean(c.namespace),
        orderly_record(record),
    ensures
        shared::lifetime_over(c, record, batch) matches Ok(changes) ==> orderly_ops(changes),
        shared::deliveries_over(c, record, batch) matches Ok(changes) ==> orderly_ops(changes),
{
    descriptions_fit();
    dead_lettering_is_orderly(
        c,
        record,
        DeadLetterReasonView::TimeToLiveExpired,
        "the message exceeded its time to live"@,
        batch,
    );
    dead_lettering_is_orderly(
        c,
        record,
        DeadLetterReasonView::MaxDeliveryCountExceeded,
        "the message reached its maximum delivery count"@,
        batch,
    );
}

/// What becomes of a message is stored as well as the message was, whatever its
/// state, its place and its times.
pub(crate) proof fn changed_records_are_orderly(record: RecordView, changed: RecordView)
    requires
        orderly_record(record),
        changed.message_id == record.message_id,
        changed.body == record.body,
        changed.session_id == record.session_id,
        changed.dead_letter == record.dead_letter,
        changed.envelope == record.envelope || fitting_envelope(changed.envelope),
    ensures
        orderly_record(changed),
{
    records_fit_by_parts(record);
    records_fit_by_parts(changed);
}

proof fn returning_is_orderly(
    c: CommandView,
    record: RecordView,
    locked_until: Timestamp,
    origin: DeliveryOrigin,
    batch: Seq<OpView>,
)
    requires
        orderly_ops(batch),
        order::clean(c.namespace),
        order::clean(c.entity),
        orderly_record(record),
    ensures
        shared::returned(c, record, locked_until, origin, batch) matches Ok(changes)
            ==> orderly_ops(changes),
{
    broadcast use group_orderly;

    let ready = RecordView { state: message::MessageState::Ready, ..record };
    let waiting = RecordView { state: message::MessageState::Deferred, ..record };
    changed_records_are_orderly(record, ready);
    changed_records_are_orderly(record, waiting);
    assert(ready.sequence == record.sequence && waiting.sequence == record.sequence);
}

proof fn handing_out_is_orderly(
    m: Contents,
    c: CommandView,
    config: QueueConfig,
    mode: ReceiveMode,
    asked: Option<u64>,
    sequence: SequenceNumber,
    record: RecordView,
    batch: Seq<OpView>,
)
    requires
        order::clean(c.namespace),
        order::clean(c.entity),
        orderly_ops(batch),
        orderly_record(record),
        record.sequence == sequence,
    ensures
        delivery::handed_out(m, c, config, mode, asked, sequence, record, batch) matches Ok(
            (changes, _),
        ) ==> orderly_ops(changes),
{
    broadcast use group_orderly;

    if let Ok(counters) = machine::counters_of(m, c) {
        let locked = RecordView {
            delivery_count: shared::count_up(record.delivery_count),
            state: message::MessageState::Locked {
                token: message::LockToken(counters.next_lock_token),
                locked_until: crate::domain::time::later(
                    c.issued_at,
                    delivery::lock_millis(config, asked),
                ),
                origin: DeliveryOrigin::Ready,
            },
            ..record
        };
        changed_records_are_orderly(record, locked);
        assert(locked.sequence == sequence);
    }
}

proof fn receiving_is_orderly(
    m: Contents,
    c: CommandView,
    config: QueueConfig,
    mode: ReceiveMode,
    asked: Option<u64>,
    ready: Seq<(Seq<u8>, Seq<u8>)>,
    batch: Seq<OpView>,
)
    requires
        order::clean(c.namespace),
        order::clean(c.entity),
        orderly(m),
        orderly_ops(batch),
    ensures
        delivery::receive_from(m, c, config, mode, asked, ready, batch) matches Ok((changes, _))
            ==> orderly_ops(changes),
    decreases ready.len(),
{
    if ready.len() > 0 {
        if let Some(sequence) = keys::last_sequence(ready[0].0) {
            messages_stand_under_their_numbers(m, c.namespace, c.entity, sequence);
            if let Ok(Some(record)) = machine::message_at(m, c.namespace, c.entity, sequence) {
                if message::expired(record, c.issued_at) {
                    lifetimes_end_orderly(c, record, batch);
                    if let Ok(longer) = shared::lifetime_over(c, record, batch) {
                        receiving_is_orderly(m, c, config, mode, asked, ready.skip(1), longer);
                    }
                } else {
                    handing_out_is_orderly(m, c, config, mode, asked, sequence, record, batch);
                }
            }
        }
    }
}

proof fn settling_is_orderly(m: Contents, c: CommandView, batch: Seq<OpView>)
    requires
        orderly(m),
        orderly_command(c),
        orderly_ops(batch),
        c.kind is Complete || c.kind is Abandon || c.kind is Defer || c.kind is DeadLetter
            || c.kind is RenewLock,
    ensures
        apply::command_step(m, c, batch) matches Ok((changes, _)) ==> orderly_ops(changes),
{
    broadcast use group_orderly;

    match c.kind {
        KindView::Abandon { sequence, lock_token, replacement_envelope } => {
            messages_stand_under_their_numbers(m, c.namespace, c.entity, sequence);
            if let Ok(config) = machine::config_of(m, c) {
                if let Ok((found, locked_until, origin)) = shared::held_lock(
                    m,
                    c,
                    sequence,
                    lock_token,
                ) {
                    if let Ok(record) = shared::with_envelope(config, found, replacement_envelope) {
                        changed_records_are_orderly(found, record);
                        lifetimes_end_orderly(c, record, batch);
                        returning_is_orderly(c, record, locked_until, origin, batch);
                    }
                }
            }
        },
        KindView::Defer { sequence, lock_token, replacement_envelope } => {
            messages_stand_under_their_numbers(m, c.namespace, c.entity, sequence);
            if let Ok(config) = machine::config_of(m, c) {
                if let Ok((found, _, _)) = shared::held_lock(m, c, sequence, lock_token) {
                    if let Ok(record) = shared::with_envelope(config, found, replacement_envelope) {
                        let waiting = RecordView {
                            state: message::MessageState::Deferred,
                            ..record
                        };
                        changed_records_are_orderly(found, waiting);
                        assert(waiting.sequence == sequence);
                    }
                }
            }
        },
        KindView::DeadLetter {
            sequence,
            lock_token,
            reason,
            description,
            replacement_envelope,
        } => {
            messages_stand_under_their_numbers(m, c.namespace, c.entity, sequence);
            if let Ok(config) = machine::config_of(m, c) {
                if let Ok((found, _, _)) = shared::held_lock(m, c, sequence, lock_token) {
                    if let Ok(record) = shared::with_envelope(config, found, replacement_envelope) {
                        changed_records_are_orderly(found, record);
                        dead_lettering_is_orderly(
                            c,
                            record,
                            DeadLetterReasonView::Application(reason),
                            description,
                            batch,
                        );
                    }
                }
            }
        },
        KindView::RenewLock { sequence, lock_token, lock_duration_millis } => {
            messages_stand_under_their_numbers(m, c.namespace, c.entity, sequence);
            if let Ok(config) = machine::config_of(m, c) {
                if let Ok((record, _, origin)) = shared::held_lock(m, c, sequence, lock_token) {
                    let renewed = RecordView {
                        state: message::MessageState::Locked {
                            token: lock_token,
                            locked_until: crate::domain::time::later(
                                c.issued_at,
                                delivery::lock_millis(config, lock_duration_millis),
                            ),
                            origin,
                        },
                        ..record
                    };
                    changed_records_are_orderly(record, renewed);
                    assert(renewed.sequence == sequence);
                }
            }
        },
        _ => {},
    }
}

proof fn deferred_handing_out_is_orderly(
    c: CommandView,
    config: QueueConfig,
    mode: ReceiveMode,
    asked: Option<u64>,
    record: RecordView,
    state: deferred::DeferredState,
)
    requires
        order::clean(c.namespace),
        order::clean(c.entity),
        orderly_ops(state.0),
        orderly_record(record),
    ensures
        deferred::deferred_handed_out(c, config, mode, asked, record, state) matches Ok(next)
            ==> orderly_ops(next.0),
{
    broadcast use group_orderly;

    descriptions_fit();
    dead_lettering_is_orderly(
        c,
        record,
        DeadLetterReasonView::TimeToLiveExpired,
        "the deferred message exceeded its time to live"@,
        state.0,
    );
    let locked = RecordView {
        delivery_count: shared::count_up(record.delivery_count),
        state: message::MessageState::Locked {
            token: message::LockToken(state.2),
            locked_until: crate::domain::time::later(
                c.issued_at,
                delivery::lock_millis(config, asked),
            ),
            origin: DeliveryOrigin::Deferred,
        },
        ..record
    };
    changed_records_are_orderly(record, locked);
    assert(locked.sequence == record.sequence);
}

spec fn orderly_records(records: Seq<RecordView>) -> bool {
    forall|i: int| 0 <= i < records.len() ==> orderly_record(#[trigger] records[i])
}

proof fn resolved_records_are_orderly(
    m: Contents,
    c: CommandView,
    sequences: Seq<SequenceNumber>,
    expected: Option<Seq<char>>,
    i: int,
    found: Seq<RecordView>,
)
    requires
        orderly(m),
        0 <= i,
        orderly_records(found),
    ensures
        deferred::resolved(m, c, sequences, expected, i, found) matches Ok(records)
            ==> orderly_records(records),
    decreases sequences.len() - i,
{
    if i < sequences.len() {
        messages_stand_under_their_numbers(m, c.namespace, c.entity, sequences[i]);
        if let Ok(record) = deferred::deferred_message(m, c, sequences[i], expected) {
            resolved_records_are_orderly(m, c, sequences, expected, i + 1, found.push(record));
        }
    }
}

proof fn all_deferred_is_orderly(
    c: CommandView,
    config: QueueConfig,
    mode: ReceiveMode,
    asked: Option<u64>,
    records: Seq<RecordView>,
    i: int,
    state: deferred::DeferredState,
)
    requires
        order::clean(c.namespace),
        order::clean(c.entity),
        orderly_ops(state.0),
        orderly_records(records),
        0 <= i,
    ensures
        deferred::all_handed_out(c, config, mode, asked, records, i, state) matches Ok(next)
            ==> orderly_ops(next.0),
    decreases records.len() - i,
{
    if i < records.len() {
        deferred_handing_out_is_orderly(c, config, mode, asked, records[i], state);
        if let Ok(next) = deferred::deferred_handed_out(
            c,
            config,
            mode,
            asked,
            records[i],
            state,
        ) {
            all_deferred_is_orderly(c, config, mode, asked, records, i + 1, next);
        }
    }
}

proof fn receiving_deferred_is_orderly(
    m: Contents,
    c: CommandView,
    config: QueueConfig,
    sequences: Seq<SequenceNumber>,
    mode: ReceiveMode,
    asked: Option<u64>,
    expected: Option<Seq<char>>,
    batch: Seq<OpView>,
)
    requires
        order::clean(c.namespace),
        order::clean(c.entity),
        orderly(m),
        orderly_ops(batch),
    ensures
        deferred::deferred_received(
            m,
            c,
            config,
            sequences,
            mode,
            asked,
            expected,
            batch,
        ) matches Ok((changes, _)) ==> orderly_ops(changes),
{
    broadcast use group_orderly;

    resolved_records_are_orderly(m, c, sequences, expected, 0, Seq::empty());
    if let Ok(records) = deferred::resolved(m, c, sequences, expected, 0, Seq::empty()) {
        if let Ok(counters) = machine::counters_of(m, c) {
            let state: deferred::DeferredState = (batch, Seq::empty(), counters.next_lock_token);
            all_deferred_is_orderly(c, config, mode, asked, records, 0, state);
        }
    }
}

proof fn judging_is_orderly(
    m: Contents,
    c: CommandView,
    config: QueueConfig,
    inputs: Seq<InputView>,
    i: int,
    state: duplicate::HistoryState,
)
    requires
        orderly_ops(state.0),
    ensures
        duplicate::all_judged(m, c, config, inputs, i, state) matches Ok(next) ==> orderly_ops(
            next.0,
        ),
    decreases inputs.len() - i,
{
    broadcast use group_orderly;

    if i < inputs.len() {
        if let Ok(next) = duplicate::judged(m, c, config, inputs, i, state) {
            judging_is_orderly(m, c, config, inputs, i + 1, next);
        }
    }
}

pub(crate) open spec fn orderly_inputs(inputs: Seq<InputView>) -> bool {
    forall|i: int| 0 <= i < inputs.len() ==> orderly_input(#[trigger] inputs[i])
}

pub(crate) proof fn new_records_are_orderly(
    c: CommandView,
    input: InputView,
    sequence: SequenceNumber,
    lifetime: Option<u64>,
)
    requires
        orderly_input(input),
    ensures
        orderly_record(send::new_record(c, input, sequence, lifetime)),
{
    records_fit_by_parts(send::new_record(c, input, sequence, lifetime));
}

proof fn storing_is_orderly(
    c: CommandView,
    config: QueueConfig,
    inputs: Seq<InputView>,
    stored: Seq<bool>,
    i: int,
    state: send::SendState,
)
    requires
        orderly_ops(state.0),
        order::clean(c.namespace),
        order::clean(c.entity),
        orderly_inputs(inputs),
        0 <= i,
    ensures
        orderly_ops(send::stored_from(c, config, inputs, stored, i, state).0),
    decreases inputs.len() - i,
{
    broadcast use group_orderly;

    if i < inputs.len() {
        let lifetime = send::effective_lifetime(
            inputs[i].time_to_live_millis,
            config.default_time_to_live_millis,
        );
        let record = send::new_record(c, inputs[i], SequenceNumber(state.1), lifetime);
        new_records_are_orderly(c, inputs[i], SequenceNumber(state.1), lifetime);
        assert(orderly_ops(send::stored_changes(c, record, state.0)));
        let changes = if stored[i] {
            send::stored_changes(c, record, state.0)
        } else {
            state.0
        };
        storing_is_orderly(
            c,
            config,
            inputs,
            stored,
            i + 1,
            (changes, crate::domain::queue::bump(state.1)),
        );
    }
}

proof fn persisting_is_orderly(
    m: Contents,
    c: CommandView,
    inputs: Seq<InputView>,
    batch: Seq<OpView>,
)
    requires
        orderly_ops(batch),
        order::clean(c.namespace),
        order::clean(c.entity),
        orderly_inputs(inputs),
    ensures
        send::persisted(m, c, inputs, batch) matches Ok((changes, _)) ==> orderly_ops(changes),
{
    broadcast use group_orderly;

    if let Ok(config) = machine::config_of(m, c) {
        judging_is_orderly(m, c, config, inputs, 0, (batch, Seq::empty()));
        if let Ok((staged, stored)) = duplicate::history(m, c, config, inputs, batch) {
            if let Ok(counters) = machine::counters_of(m, c) {
                storing_is_orderly(c, config, inputs, stored, 0, (staged, counters.next_sequence));
            }
        }
    }
}

pub(crate) open spec fn clean_subscribers(subscribers: Seq<topic::Subscriber>) -> bool {
    forall|i: int| 0 <= i < subscribers.len() ==> order::clean((#[trigger] subscribers[i]).path)
}

pub(crate) proof fn subscribers_are_clean(
    m: Contents,
    namespace: Seq<char>,
    paths: Seq<Seq<char>>,
    i: int,
    found: Seq<topic::Subscriber>,
)
    requires
        clean_paths(paths),
        clean_subscribers(found),
        0 <= i,
    ensures
        topic::subscribers_from(m, namespace, paths, i, found) matches Ok(subscribers)
            ==> clean_subscribers(subscribers),
    decreases paths.len() - i,
{
    if i < paths.len() {
        if let Ok(next) = topic::subscriber(m, namespace, paths[i]) {
            subscribers_are_clean(m, namespace, paths, i + 1, found.push(next));
        }
    }
}

proof fn fanning_out_is_orderly(
    c: CommandView,
    topic_config: TopicConfig,
    input: InputView,
    sequence: SequenceNumber,
    properties: crate::domain::rule::PropertiesView,
    subscribers: Seq<topic::Subscriber>,
    i: int,
    state: topic::FanoutState,
)
    requires
        orderly_ops(state.0),
        order::clean(c.namespace),
        orderly_input(input),
        clean_subscribers(subscribers),
        0 <= i,
    ensures
        orderly_ops(
            topic::fan_out(
                c,
                topic_config,
                input,
                sequence,
                properties,
                subscribers,
                i,
                state,
            ).0,
        ),
    decreases subscribers.len() - i,
{
    broadcast use group_orderly;

    if i < subscribers.len() {
        let copy = topic::copy_of(c, input, sequence, topic_config, subscribers[i].config);
        new_records_are_orderly(
            c,
            input,
            sequence,
            send::effective_lifetime(
                send::effective_lifetime(
                    input.time_to_live_millis,
                    topic_config.default_time_to_live_millis,
                ),
                subscribers[i].config.default_time_to_live_millis,
            ),
        );
        assert(orderly_ops(topic::copy_changes(c, subscribers[i].path, copy, state.0)));
        let next = if topic::any_selects(subscribers[i].rules, properties) {
            (
                topic::copy_changes(c, subscribers[i].path, copy, state.0),
                state.1.update(i, true),
            )
        } else {
            state
        };
        fanning_out_is_orderly(
            c,
            topic_config,
            input,
            sequence,
            properties,
            subscribers,
            i + 1,
            next,
        );
    }
}

proof fn publishing_from_is_orderly(
    c: CommandView,
    topic_config: TopicConfig,
    inputs: Seq<InputView>,
    subscribers: Seq<topic::Subscriber>,
    i: int,
    state: topic::PublishState,
)
    requires
        orderly_ops(state.0.0),
        order::clean(c.namespace),
        orderly_inputs(inputs),
        clean_subscribers(subscribers),
        0 <= i,
    ensures
        topic::publish_from(c, topic_config, inputs, subscribers, i, state) matches Ok(next)
            ==> orderly_ops(next.0.0),
    decreases inputs.len() - i,
{
    if i < inputs.len() {
        if let Ok(properties) = crate::domain::rule::canonical_view(topic::inspected(inputs[i])) {
            fanning_out_is_orderly(
                c,
                topic_config,
                inputs[i],
                SequenceNumber(state.1),
                properties,
                subscribers,
                0,
                state.0,
            );
            publishing_from_is_orderly(
                c,
                topic_config,
                inputs,
                subscribers,
                i + 1,
                (
                    topic::fan_out(
                        c,
                        topic_config,
                        inputs[i],
                        SequenceNumber(state.1),
                        properties,
                        subscribers,
                        0,
                        state.0,
                    ),
                    crate::domain::queue::bump(state.1),
                ),
            );
        }
    }
}

proof fn publishing_is_orderly(
    m: Contents,
    c: CommandView,
    inputs: Seq<InputView>,
    batch: Seq<OpView>,
)
    requires
        m.dom().finite(),
        orderly(m),
        orderly_ops(batch),
        order::clean(c.namespace),
        order::clean(c.entity),
        orderly_inputs(inputs),
    ensures
        topic::publish_step(m, c, inputs, batch) matches Ok((changes, _)) ==> orderly_ops(changes),
{
    broadcast use group_orderly;

    let limit = (crate::domain::topic::MAX_TOPIC_SUBSCRIPTIONS + 1) as usize;
    subscriptions_stand_below_their_topic(m, c.namespace, c.entity, limit);
    if let Ok(topic_config) = topic::topic_of(m, c) {
        if let Ok(paths) = topic::subscriptions_of(m, c.namespace, c.entity, limit) {
            subscribers_are_clean(m, c.namespace, paths, 0, Seq::empty());
            if let Ok(subscribers) = topic::subscribers_from(
                m,
                c.namespace,
                paths,
                0,
                Seq::empty(),
            ) {
                if let Ok(counters) = machine::counters_of(m, c) {
                    publishing_from_is_orderly(
                        c,
                        topic_config,
                        inputs,
                        subscribers,
                        0,
                        (
                            (batch, Seq::new(paths.len(), |i: int| false)),
                            counters.next_sequence,
                        ),
                    );
                }
            }
        }
    }
}

proof fn cancelling_is_orderly(
    c: CommandView,
    sequences: Seq<SequenceNumber>,
    due: Seq<Timestamp>,
    n: int,
    batch: Seq<OpView>,
)
    requires
        orderly_ops(batch),
    ensures
        orderly_ops(scheduling::removed(c, sequences, due, n, batch)),
    decreases n,
{
    broadcast use group_orderly;

    if n > 0 {
        cancelling_is_orderly(c, sequences, due, n - 1, batch);
    }
}

proof fn activating_is_orderly(
    m: Contents,
    c: CommandView,
    due: Seq<(Seq<u8>, Seq<u8>)>,
    state: scheduling::ActivationState,
)
    requires
        orderly(m),
        orderly_ops(state.0),
        order::clean(c.namespace),
        order::clean(c.entity),
    ensures
        scheduling::activate_due(m, c, due, state) matches Ok(next) ==> orderly_ops(next.0),
    decreases due.len(),
{
    broadcast use group_orderly;

    if due.len() > 0 {
        if let Some((enqueue_at, placeholder)) = keys::last_deadline(due[0].0) {
            messages_stand_under_their_numbers(m, c.namespace, c.entity, placeholder);
            if let Ok(record) = scheduling::due_record(m, c, enqueue_at, placeholder) {
                let active = scheduling::active_record(
                    record,
                    enqueue_at,
                    SequenceNumber(state.1),
                    c.issued_at,
                );
                changed_records_are_orderly(record, active);
                activating_is_orderly(
                    m,
                    c,
                    due.skip(1),
                    (
                        scheduling::activated_changes(
                            c,
                            due[0].0,
                            placeholder,
                            active,
                            state.0,
                        ),
                        crate::domain::queue::bump(state.1),
                        state.2 + 1,
                    ),
                );
            }
        }
    }
}

proof fn undoing_is_orderly(
    m: Contents,
    c: CommandView,
    config: QueueConfig,
    locks: Seq<(Seq<u8>, Seq<u8>)>,
    batch: Seq<OpView>,
    returned: nat,
    dead: nat,
)
    requires
        orderly(m),
        orderly_ops(batch),
        order::clean(c.namespace),
        order::clean(c.entity),
    ensures
        expiry::undo_elapsed(m, c, config, locks, batch, returned, dead) matches Ok((changes, _))
            ==> orderly_ops(changes),
    decreases locks.len(),
{
    if locks.len() > 0 {
        if let Some((locked_until, sequence)) = keys::last_deadline(locks[0].0) {
            messages_stand_under_their_numbers(m, c.namespace, c.entity, sequence);
            if let Ok(Some(record)) = machine::message_at(m, c.namespace, c.entity, sequence) {
                if let message::MessageState::Locked { origin, .. } = record.state {
                    let rest = locks.skip(1);
                    lifetimes_end_orderly(c, record, batch);
                    returning_is_orderly(c, record, locked_until, origin, batch);
                    if let Ok(longer) = shared::lifetime_over(c, record, batch) {
                        undoing_is_orderly(m, c, config, rest, longer, returned, dead + 1);
                    }
                    if let Ok(longer) = shared::deliveries_over(c, record, batch) {
                        undoing_is_orderly(m, c, config, rest, longer, returned, dead + 1);
                    }
                    if let Ok(longer) = shared::returned(c, record, locked_until, origin, batch) {
                        undoing_is_orderly(m, c, config, rest, longer, returned + 1, dead);
                    }
                }
            }
        }
    }
}

proof fn ending_is_orderly(
    m: Contents,
    c: CommandView,
    expiring: Seq<(Seq<u8>, Seq<u8>)>,
    batch: Seq<OpView>,
    dead: nat,
)
    requires
        orderly(m),
        orderly_ops(batch),
        order::clean(c.namespace),
    ensures
        expiry::end_elapsed(m, c, expiring, batch, dead) matches Ok((changes, _)) ==> orderly_ops(
            changes,
        ),
    decreases expiring.len(),
{
    broadcast use group_orderly;

    if expiring.len() > 0 {
        let rest = expiring.skip(1);
        if let Some((expires_at, sequence)) = keys::last_deadline(expiring[0].0) {
            messages_stand_under_their_numbers(m, c.namespace, c.entity, sequence);
            if let Ok(Some(record)) = machine::message_at(m, c.namespace, c.entity, sequence) {
                lifetimes_end_orderly(c, record, batch);
                if let Ok(longer) = shared::lifetime_over(c, record, batch) {
                    ending_is_orderly(m, c, rest, longer, dead + 1);
                }
                ending_is_orderly(m, c, rest, batch.push(shared::drop_key(expiring[0].0)), dead);
            }
        }
    }
}

proof fn forgetting_is_orderly(
    m: Contents,
    c: CommandView,
    expiring: Seq<(Seq<u8>, Seq<u8>)>,
    batch: Seq<OpView>,
    forgotten: nat,
)
    requires
        orderly_ops(batch),
    ensures
        duplicate::forget_elapsed(m, c, expiring, batch, forgotten) matches Ok((changes, _))
            ==> orderly_ops(changes),
    decreases expiring.len(),
{
    broadcast use group_orderly;

    if expiring.len() > 0 {
        let rest = expiring.skip(1);
        let prefix = keys::duplicate_expiry_prefix_key(c.namespace, c.entity);
        if let Some((deadline, id)) = keys::deadline_and_text(prefix, expiring[0].0) {
            if let Ok(current) = duplicate::history_at(m, c.namespace, c.entity, id) {
                let looked_up = if current == Some(deadline) {
                    batch.push(
                        shared::drop_key(keys::duplicate_id_key(c.namespace, c.entity, id)),
                    )
                } else {
                    batch
                };
                forgetting_is_orderly(
                    m,
                    c,
                    rest,
                    looked_up.push(shared::drop_key(expiring[0].0)),
                    forgotten + 1,
                );
            }
        }
    }
}

proof fn accepting_is_orderly(
    m: Contents,
    c: CommandView,
    locked_until: Timestamp,
    start: Seq<u8>,
    n: nat,
    batch: Seq<OpView>,
)
    requires
        orderly_ops(batch),
    ensures
        sessions::accept_from(m, c, locked_until, start, n, batch) matches Ok((changes, _))
            ==> orderly_ops(changes),
    decreases n,
{
    broadcast use group_orderly;

    let prefix = keys::entity_session_ready_prefix_key(c.namespace, c.entity);
    let found = storage::scan(m, prefix, start, 1);
    if n > 0 && found.len() > 0 {
        if let Some(text) = keys::session_after(prefix, found[0].0) {
            if let Ok(id) = identifier::session_id_of(text) {
                accepting_is_orderly(
                    m,
                    c,
                    locked_until,
                    keys::after_session_ready_key(c.namespace, c.entity, id),
                    (n - 1) as nat,
                    batch,
                );
            }
        }
    }
}

proof fn releasing_elapsed_is_orderly(
    m: Contents,
    c: CommandView,
    locks: Seq<(Seq<u8>, Seq<u8>)>,
    batch: Seq<OpView>,
    released: nat,
)
    requires
        orderly_ops(batch),
    ensures
        sessions::release_elapsed(m, c, locks, batch, released) matches Ok((changes, _))
            ==> orderly_ops(changes),
    decreases locks.len(),
{
    broadcast use group_orderly;

    if locks.len() > 0 {
        let prefix = keys::session_lock_prefix_key(c.namespace, c.entity);
        if let Some((locked_until, text)) = keys::deadline_and_text(prefix, locks[0].0) {
            if let Ok(id) = identifier::session_id_of(text) {
                if let Ok(record) = machine::session_of(m, c, id) {
                    releasing_elapsed_is_orderly(
                        m,
                        c,
                        locks.skip(1),
                        shared::unlocked_session(c, id, record, batch),
                        released + 1,
                    );
                }
            }
        }
    }
}

// ---- a whole command -------------------------------------------------------

proof fn catalog_is_orderly(m: Contents, c: CommandView, batch: Seq<OpView>)
    requires
        orderly(m),
        orderly_command(c),
        orderly_ops(batch),
        c.kind is CreateQueue || c.kind is CreateTopic || c.kind is CreateSubscription || c.kind
            is CreateRule || c.kind is DeleteRule || c.kind is ListRules,
    ensures
        apply::command_step(m, c, batch) matches Ok((changes, _)) ==> orderly_ops(changes),
{
    broadcast use group_orderly;

    if let KindView::CreateSubscription { name, .. } = c.kind {
        internal_paths_are_clean(identifier::subscription_path(c.entity, name));
        if m.dom().contains(keys::topic_config_key(c.namespace, c.entity)) {
            topics_are_plain(m, c.namespace, c.entity);
        }
    }
}

proof fn sending_is_orderly(m: Contents, c: CommandView, batch: Seq<OpView>)
    requires
        m.dom().finite(),
        orderly(m),
        orderly_command(c),
        orderly_ops(batch),
        c.kind is Send || c.kind is SendBatch,
    ensures
        apply::command_step(m, c, batch) matches Ok((changes, _)) ==> orderly_ops(changes),
{
    match c.kind {
        KindView::Send {
            message_id,
            body,
            time_to_live_millis,
            session_id,
            scheduled_enqueue_at,
            envelope,
        } => {
            let input = InputView {
                message_id,
                body,
                time_to_live_millis,
                session_id,
                scheduled_enqueue_at,
                envelope,
            };
            publishing_is_orderly(m, c, seq![input], batch);
            persisting_is_orderly(m, c, seq![input], batch);
        },
        KindView::SendBatch { messages } => {
            publishing_is_orderly(m, c, messages, batch);
            persisting_is_orderly(m, c, messages, batch);
        },
        _ => {},
    }
}

proof fn session_steps_are_orderly(m: Contents, c: CommandView, batch: Seq<OpView>)
    requires
        orderly_ops(batch),
        c.kind is AcceptSession || c.kind is ReleaseSession || c.kind is RenewSessionLock || c.kind
            is SetSessionState || c.kind is GetSessionState || c.kind is ExpireSessionLocks,
    ensures
        apply::command_step(m, c, batch) matches Ok((changes, _)) ==> orderly_ops(changes),
{
    broadcast use group_orderly;

    match c.kind {
        KindView::AcceptSession { session_id, lock_duration_millis } => {
            if let Ok(config) = machine::config_of(m, c) {
                accepting_is_orderly(
                    m,
                    c,
                    crate::domain::time::later(
                        c.issued_at,
                        delivery::lock_millis(config, lock_duration_millis),
                    ),
                    keys::entity_session_ready_prefix_key(c.namespace, c.entity),
                    machine::MAX_SESSION_SCAN as nat,
                    batch,
                );
            }
        },
        KindView::ExpireSessionLocks => {
            let prefix = keys::session_lock_prefix_key(c.namespace, c.entity);
            releasing_elapsed_is_orderly(
                m,
                c,
                storage::scan(m, prefix, prefix, TIMER_SCAN_LIMIT),
                batch,
                0,
            );
        },
        _ => {},
    }
}

proof fn sweeps_are_orderly(m: Contents, c: CommandView, batch: Seq<OpView>)
    requires
        orderly(m),
        orderly_command(c),
        orderly_ops(batch),
        c.kind is ExpireLocks || c.kind is ExpireMessages || c.kind is ActivateScheduled || c.kind
            is ExpireDuplicateHistory || c.kind is CancelScheduled,
    ensures
        apply::command_step(m, c, batch) matches Ok((changes, _)) ==> orderly_ops(changes),
{
    broadcast use group_orderly;

    match c.kind {
        KindView::ExpireLocks => {
            if let Ok(config) = machine::config_of(m, c) {
                let prefix = keys::lock_prefix_key(c.namespace, c.entity);
                let locks = storage::scan(m, prefix, prefix, TIMER_SCAN_LIMIT);
                undoing_is_orderly(m, c, config, locks, batch, 0, 0);
            }
        },
        KindView::ExpireMessages => {
            let prefix = keys::expiry_prefix_key(c.namespace, c.entity);
            ending_is_orderly(m, c, storage::scan(m, prefix, prefix, TIMER_SCAN_LIMIT), batch, 0);
        },
        KindView::ActivateScheduled => {
            if let Ok(counters) = machine::counters_of(m, c) {
                let prefix = keys::scheduled_prefix_key(c.namespace, c.entity);
                let due = storage::scan(m, prefix, prefix, TIMER_SCAN_LIMIT);
                activating_is_orderly(m, c, due, (batch, counters.next_sequence, 0));
            }
        },
        KindView::ExpireDuplicateHistory => {
            let prefix = keys::duplicate_expiry_prefix_key(c.namespace, c.entity);
            let expiring = storage::scan(m, prefix, prefix, TIMER_SCAN_LIMIT);
            forgetting_is_orderly(m, c, expiring, batch, 0);
        },
        KindView::CancelScheduled { sequences } => {
            if let Ok(due) = scheduling::due_times(m, c, sequences, 0, Seq::empty()) {
                cancelling_is_orderly(c, sequences, due, sequences.len() as int, batch);
            }
        },
        _ => {},
    }
}

proof fn deliveries_are_orderly(m: Contents, c: CommandView, batch: Seq<OpView>)
    requires
        orderly(m),
        orderly_command(c),
        orderly_ops(batch),
        c.kind is Peek || c.kind is Receive || c.kind is ReceiveDeferred,
    ensures
        apply::command_step(m, c, batch) matches Ok((changes, _)) ==> orderly_ops(changes),
{
    match c.kind {
        KindView::Receive { mode, lock_duration_millis, session } => {
            if let Ok(config) = delivery::receivable(m, c) {
                let prefix = match session {
                    Some(hold) => keys::session_ready_prefix_key(
                        c.namespace,
                        c.entity,
                        hold.session_id,
                    ),
                    None => keys::ready_prefix_key(c.namespace, c.entity),
                };
                receiving_is_orderly(
                    m,
                    c,
                    config,
                    mode,
                    lock_duration_millis,
                    storage::scan(m, prefix, prefix, machine::MAX_RECEIVE_SCAN),
                    batch,
                );
            }
        },
        KindView::ReceiveDeferred { sequences, mode, lock_duration_millis, session } => {
            if let Ok(config) = machine::config_of(m, c) {
                let expected = match session {
                    Some(hold) => Some(hold.session_id),
                    None => None,
                };
                receiving_deferred_is_orderly(
                    m,
                    c,
                    config,
                    sequences,
                    mode,
                    lock_duration_millis,
                    expected,
                    batch,
                );
            }
        },
        _ => {},
    }
}

proof fn changes_are_orderly(m: Contents, c: CommandView)
    requires
        m.dom().finite(),
        orderly(m),
        orderly_command(c),
    ensures
        apply::command_step(m, c, Seq::empty()) matches Ok((changes, _)) ==> orderly_ops(changes),
{
    let batch: Seq<OpView> = Seq::empty();
    assert(orderly_ops(batch)) by {
        reveal(orderly_ops);
    }
    match c.kind {
        KindView::CreateQueue { .. } | KindView::CreateTopic { .. } | KindView::CreateSubscription {
            ..
        } | KindView::CreateRule { .. } | KindView::DeleteRule { .. } | KindView::ListRules {
            ..
        } => {
            catalog_is_orderly(m, c, batch);
        },
        KindView::Send { .. } | KindView::SendBatch { .. } => {
            sending_is_orderly(m, c, batch);
        },
        KindView::Peek { .. } | KindView::Receive { .. } | KindView::ReceiveDeferred { .. } => {
            deliveries_are_orderly(m, c, batch);
        },
        KindView::Complete { .. } | KindView::Abandon { .. } | KindView::Defer { .. }
        | KindView::DeadLetter { .. } | KindView::RenewLock { .. } => {
            settling_is_orderly(m, c, batch);
        },
        KindView::AcceptSession { .. } | KindView::ReleaseSession { .. }
        | KindView::RenewSessionLock { .. } | KindView::SetSessionState { .. }
        | KindView::GetSessionState { .. } | KindView::ExpireSessionLocks => {
            session_steps_are_orderly(m, c, batch);
        },
        KindView::ExpireLocks | KindView::ExpireMessages | KindView::ActivateScheduled
        | KindView::ExpireDuplicateHistory | KindView::CancelScheduled { .. } => {
            sweeps_are_orderly(m, c, batch);
        },
    }
}

proof fn orderly_changes_keep_order(m: Contents, ops: Seq<OpView>)
    requires
        orderly(m),
        orderly_ops(ops),
    ensures
        orderly(storage::apply_ops(m, ops)),
    decreases ops.len(),
{
    if ops.len() > 0 {
        assert(orderly_ops(ops.drop_last()) && orderly_op(ops.last())) by {
            reveal(orderly_ops);
            assert forall|i: int| 0 <= i < ops.drop_last().len() implies orderly_op(
                #[trigger] ops.drop_last()[i],
            ) by {
                assert(ops.drop_last()[i] == ops[i]);
            }
        }
        orderly_changes_keep_order(m, ops.drop_last());
    }
}

/// A store in which nothing is stored is an orderly one.
pub proof fn stores_begin_orderly()
    ensures
        orderly(Map::empty()),
{
}

/// Every command leaves an orderly store orderly, whether it is accepted or not.
pub proof fn commands_keep_stores_orderly(m: Contents, c: CommandView)
    requires
        m.dom().finite(),
        orderly(m),
        orderly_command(c),
    ensures
        orderly(apply::applied(m, c).1),
{
    changes_are_orderly(m, c);
    if let Ok((changes, _)) = apply::command_step(m, c, Seq::empty()) {
        let clock = apply::clock_change(c.issued_at);
        assert(orderly_op(clock)) by {
            reveal(orderly_entry);
            assert(holds_time(codec::encoded::<Timestamp>(c.issued_at)));
        }
        one_more_is_orderly(changes, clock);
        orderly_changes_keep_order(m, changes.push(clock));
    }
}

/// However many commands are applied to it, a store stays orderly.
pub proof fn stores_stay_orderly(m: Contents, commands: Seq<CommandView>)
    requires
        m.dom().finite(),
        orderly(m),
        forall|i: int| 0 <= i < commands.len() ==> orderly_command(#[trigger] commands[i]),
    ensures
        orderly(history::replayed(m, commands).1),
        history::replayed(m, commands).1.dom().finite(),
    decreases commands.len(),
{
    if commands.len() > 0 {
        let earlier = commands.drop_last();
        assert forall|i: int| 0 <= i < earlier.len() implies orderly_command(
            #[trigger] earlier[i],
        ) by {
            assert(earlier[i] == commands[i]);
        }
        stores_stay_orderly(m, earlier);
        let before = history::replayed(m, earlier).1;
        assert(orderly_command(commands[commands.len() - 1]));
        commands_keep_stores_orderly(before, commands.last());
        history::a_store_stays_finite(before, commands.last());
    }
}

// ---- what it is good for ---------------------------------------------------

/// An orderly store tells the time, and its counters can be read.
pub proof fn clocks_and_counters_are_legible(m: Contents, c: CommandView)
    requires
        orderly(m),
    ensures
        machine::applied_time(m) is Ok,
        machine::counters_of(m, c) is Ok,
{
    reveal(orderly_entry);
    let clock = keys::clock_key();
    if m.dom().contains(clock) {
        assert(orderly_entry(clock, m[clock]));
        let time = choose|time: Timestamp| m[clock] == #[trigger] codec::encoded::<Timestamp>(time);
        codec::stored_values_read_back::<Timestamp>(time);
    }
    let key = keys::queue_counters_key(c.namespace, c.entity);
    if m.dom().contains(key) {
        assert(orderly_entry(key, m[key]));
        let counters = choose|counters: QueueCounters|
            m[key] == #[trigger] codec::encoded::<QueueCounters>(counters);
        codec::stored_values_read_back::<QueueCounters>(counters);
    }
}

/// Whether an index holds a number behind its prefix in every entry.
pub open spec fn holds_numbers_alone(m: Contents, prefix: Seq<u8>) -> bool {
    forall|key: Seq<u8>|
        m.dom().contains(key) && #[trigger] bytes::has_prefix(key, prefix) ==> exists|n: u64|
            key == keys::numbered(prefix, n)
}

/// In an orderly store the ready index of a queue holds numbers alone, and so does
/// that of each of its sessions.
pub proof fn ready_indexes_hold_numbers_alone(
    m: Contents,
    namespace: Seq<char>,
    entity: Seq<char>,
    session: Option<Seq<char>>,
)
    requires
        orderly(m),
        order::clean(namespace),
        order::clean(entity),
        session matches Some(id) ==> order::clean(id),
    ensures
        holds_numbers_alone(
            m,
            match session {
                Some(id) => keys::session_ready_prefix_key(namespace, entity, id),
                None => keys::ready_prefix_key(namespace, entity),
            },
        ),
{
    let prefix = match session {
        Some(id) => keys::session_ready_prefix_key(namespace, entity, id),
        None => keys::ready_prefix_key(namespace, entity),
    };
    assert forall|key: Seq<u8>|
        m.dom().contains(key) && #[trigger] bytes::has_prefix(key, prefix) implies exists|n: u64|
        key == keys::numbered(prefix, n) by {
        assert(orderly_entry(key, m[key]));
        reveal(orderly_entry);
        assert(key.subrange(0, prefix.len() as int)[0] == prefix[0]);
        match session {
            None => {
                let (ns, e, n) = choose|ns: Seq<char>, e: Seq<char>, n: SequenceNumber|
                    names_ready(key, ns, e, n);
                order::a_key_lies_in_one_scope(
                    keys::TAG_READY,
                    namespace,
                    entity,
                    keys::TAG_READY,
                    ns,
                    e,
                    bytes::be(n.0 as nat, 8),
                );
                assert(key == keys::numbered(prefix, n.0));
            },
            Some(id) => {
                let (ns, e, other, n) = choose|
                    ns: Seq<char>,
                    e: Seq<char>,
                    other: Seq<char>,
                    n: SequenceNumber,
                | names_session_ready(key, ns, e, other, n);
                let scope = keys::scope_key(keys::TAG_SESSION_READY, namespace, entity);
                let rest = bytes::utf8(other) + seq![keys::SEPARATOR] + bytes::be(n.0 as nat, 8);
                assert(key =~= keys::scope_key(keys::TAG_SESSION_READY, ns, e) + rest);
                assert(bytes::has_prefix(key, scope)) by {
                    assert(key.subrange(0, scope.len() as int) =~= key.subrange(
                        0,
                        prefix.len() as int,
                    ).subrange(0, scope.len() as int));
                    assert(prefix.subrange(0, scope.len() as int) =~= scope);
                }
                order::a_key_lies_in_one_scope(
                    keys::TAG_SESSION_READY,
                    namespace,
                    entity,
                    keys::TAG_SESSION_READY,
                    ns,
                    e,
                    rest,
                );
                order::a_session_entry_lies_in_one_session(
                    namespace,
                    entity,
                    id,
                    other,
                    bytes::be(n.0 as nat, 8),
                );
                assert(key == keys::numbered(prefix, n.0));
            },
        }
    }
}

} // verus!
