//! Where the messages of a store stand: every message has its entry in the index
//! of its state, and every entry of an index has its message.

use vstd::prelude::*;

use crate::bytes;
use crate::domain::codec;
use crate::domain::command::{CommandView, InputView, KindView};
use crate::domain::error::ErrorView;
use crate::domain::identifier;
use crate::domain::keys;
use crate::domain::keys::SEPARATOR;
use crate::domain::machine;
use crate::domain::machine::apply;
use crate::domain::machine::history;
use crate::domain::machine::isolation;
use crate::domain::machine::orderly;
use crate::domain::machine::{deferred, delivery, duplicate, expiry, scheduling, send, sessions};
use crate::domain::machine::{repeats, shared, topic};
use crate::domain::machine::{MAX_RECEIVE_SCAN, TIMER_SCAN_LIMIT};
use crate::domain::message;
use crate::domain::message::{
    DeadLetterReason, DeadLetterReasonView, DeliveryOrigin, LockToken, MessageRecord, MessageState,
    ReceiveMode, RecordView, SequenceNumber,
};
use crate::domain::order;
use crate::domain::queue;
use crate::domain::queue::{QueueConfig, QueueCounters};
use crate::domain::time;
use crate::domain::time::Timestamp;
use crate::domain::topic::{TopicConfig, MAX_TOPIC_SUBSCRIPTIONS};
use crate::domain::wire::Wire;
use crate::storage;
use crate::storage::{Contents, OpView};

verus! {

// ---- what stands where -----------------------------------------------------

/// The message `n` of an entity.
pub open spec fn message_in(
    m: Contents,
    namespace: Seq<char>,
    entity: Seq<char>,
    n: SequenceNumber,
) -> Option<RecordView> {
    match machine::message_at(m, namespace, entity, n) {
        Ok(found) => found,
        Err(_) => None,
    }
}

/// The entry of a message in the index of its state.
pub open spec fn place(namespace: Seq<char>, entity: Seq<char>, record: RecordView) -> Seq<u8> {
    let n = record.sequence;
    match record.state {
        MessageState::Ready => match record.session_id {
            Some(id) => keys::session_ready_key(namespace, entity, id, n),
            None => keys::ready_key(namespace, entity, n),
        },
        MessageState::Deferred => keys::deferred_key(namespace, entity, n),
        MessageState::Scheduled => keys::scheduled_key(
            namespace,
            entity,
            record.scheduled_enqueue_at->Some_0,
            n,
        ),
        MessageState::Locked { locked_until, .. } => keys::lock_key(
            namespace,
            entity,
            locked_until,
            n,
        ),
    }
}

/// Whether `key` is an entry of a message: that of its state, or that of its
/// lifetime, which runs while it is ready.
pub open spec fn marks(
    namespace: Seq<char>,
    entity: Seq<char>,
    record: RecordView,
    key: Seq<u8>,
) -> bool {
    ||| key == place(namespace, entity, record)
    ||| {
        &&& record.state is Ready
        &&& record.expires_at matches Some(at)
        &&& key == keys::expiry_key(namespace, entity, at, record.sequence)
    }
}

/// Whether names hold no control character.
pub open spec fn proper(namespace: Seq<char>, entity: Seq<char>) -> bool {
    order::clean(namespace) && order::clean(entity)
}

/// Whether a scheduled message has a time, and a locked one was ready or deferred
/// before.
pub open spec fn has_a_proper_state(record: RecordView) -> bool {
    &&& record.state is Scheduled ==> record.scheduled_enqueue_at is Some
    &&& record.state matches MessageState::Locked { origin, .. } ==> origin
        != DeliveryOrigin::Scheduled
}

/// Whether a message, if there is one, stands under its own number and in the
/// indexes that it belongs to.
pub open spec fn well_placed(
    m: Contents,
    namespace: Seq<char>,
    entity: Seq<char>,
    n: SequenceNumber,
) -> bool {
    message_in(m, namespace, entity, n) matches Some(record) ==> {
        &&& record.sequence == n
        &&& orderly::orderly_record(record)
        &&& has_a_proper_state(record)
        &&& forall|key: Seq<u8>| #[trigger]
            marks(namespace, entity, record, key) ==> m.dom().contains(key)
    }
}

/// What a key is for.
#[verifier::opaque]
pub open spec fn tag_of(key: Seq<u8>) -> u8 {
    if key.len() > 0 {
        key[0]
    } else {
        keys::TAG_CLOCK
    }
}

/// Whether a key is an entry of an index of messages.
pub open spec fn is_mark(key: Seq<u8>) -> bool {
    let tag = tag_of(key);
    ||| tag == keys::TAG_READY
    ||| tag == keys::TAG_SESSION_READY
    ||| tag == keys::TAG_LOCK
    ||| tag == keys::TAG_DEFERRED
    ||| tag == keys::TAG_SCHEDULED
    ||| tag == keys::TAG_EXPIRY
}

/// The message that a key speaks of.
#[verifier::opaque]
pub open spec fn subject(key: Seq<u8>) -> Option<(Seq<char>, Seq<char>, SequenceNumber)> {
    match (keys::scope_parts(key), keys::last_sequence(key)) {
        (Some((namespace, entity)), Some(n)) => Some((namespace, entity, n)),
        _ => None,
    }
}

/// Whether an entry of an index belongs to a message.
pub open spec fn accounted(
    m: Contents,
    key: Seq<u8>,
    namespace: Seq<char>,
    entity: Seq<char>,
    n: SequenceNumber,
) -> bool {
    &&& proper(namespace, entity)
    &&& message_in(m, namespace, entity, n) matches Some(record)
    &&& marks(namespace, entity, record, key)
}

/// Whether every message stands where it belongs, and no entry of an index leads
/// nowhere.
#[verifier::opaque]
pub open spec fn indexed(m: Contents) -> bool {
    &&& forall|namespace: Seq<char>, entity: Seq<char>, n: SequenceNumber|
        proper(namespace, entity) ==> #[trigger] well_placed(m, namespace, entity, n)
    &&& forall|key: Seq<u8>|
        #![trigger m.dom().contains(key)]
        m.dom().contains(key) && is_mark(key) ==> exists|
            namespace: Seq<char>,
            entity: Seq<char>,
            n: SequenceNumber,
        | #[trigger] accounted(m, key, namespace, entity, n)
}

// ---- what keys speak of ----------------------------------------------------

proof fn scoped_keys(tag: u8, namespace: Seq<char>, entity: Seq<char>, rest: Seq<u8>, n: u64)
    ensures
        ({
            let key = keys::scope_key(tag, namespace, entity) + (rest + bytes::be(n as nat, 8));
            &&& tag_of(key) == tag
            &&& proper(namespace, entity) ==> subject(key) == Some(
                (namespace, entity, SequenceNumber(n)),
            )
        }),
{
    reveal(tag_of);
    reveal(subject);
    let scope = keys::scope_key(tag, namespace, entity);
    let key = scope + (rest + bytes::be(n as nat, 8));
    assert(key =~= keys::numbered(scope + rest, n));
    order::sequences_read_back(scope + rest, SequenceNumber(n));
    if proper(namespace, entity) {
        order::scopes_read_back(tag, namespace, entity, rest + bytes::be(n as nat, 8));
    }
}

broadcast proof fn message_keys(ns: Seq<char>, e: Seq<char>, n: SequenceNumber)
    ensures
        tag_of(#[trigger] keys::message_key(ns, e, n)) == keys::TAG_MESSAGE,
        proper(ns, e) ==> subject(keys::message_key(ns, e, n)) == Some((ns, e, n)),
{
    scoped_keys(keys::TAG_MESSAGE, ns, e, Seq::empty(), n.0);
    assert(Seq::<u8>::empty() + bytes::be(n.0 as nat, 8) =~= bytes::be(n.0 as nat, 8));
}

broadcast proof fn ready_keys(ns: Seq<char>, e: Seq<char>, n: SequenceNumber)
    ensures
        tag_of(#[trigger] keys::ready_key(ns, e, n)) == keys::TAG_READY,
        proper(ns, e) ==> subject(keys::ready_key(ns, e, n)) == Some((ns, e, n)),
{
    scoped_keys(keys::TAG_READY, ns, e, Seq::empty(), n.0);
    assert(Seq::<u8>::empty() + bytes::be(n.0 as nat, 8) =~= bytes::be(n.0 as nat, 8));
}

broadcast proof fn deferred_keys(ns: Seq<char>, e: Seq<char>, n: SequenceNumber)
    ensures
        tag_of(#[trigger] keys::deferred_key(ns, e, n)) == keys::TAG_DEFERRED,
        proper(ns, e) ==> subject(keys::deferred_key(ns, e, n)) == Some((ns, e, n)),
{
    scoped_keys(keys::TAG_DEFERRED, ns, e, Seq::empty(), n.0);
    assert(Seq::<u8>::empty() + bytes::be(n.0 as nat, 8) =~= bytes::be(n.0 as nat, 8));
}

broadcast proof fn session_ready_keys(
    ns: Seq<char>,
    e: Seq<char>,
    id: Seq<char>,
    n: SequenceNumber,
)
    ensures
        tag_of(#[trigger] keys::session_ready_key(ns, e, id, n)) == keys::TAG_SESSION_READY,
        proper(ns, e) ==> subject(keys::session_ready_key(ns, e, id, n)) == Some((ns, e, n)),
{
    let rest = bytes::utf8(id) + seq![SEPARATOR];
    scoped_keys(keys::TAG_SESSION_READY, ns, e, rest, n.0);
    assert(keys::session_ready_key(ns, e, id, n) =~= keys::scope_key(
        keys::TAG_SESSION_READY,
        ns,
        e,
    ) + (rest + bytes::be(n.0 as nat, 8)));
}

broadcast proof fn lock_keys(ns: Seq<char>, e: Seq<char>, t: Timestamp, n: SequenceNumber)
    ensures
        tag_of(#[trigger] keys::lock_key(ns, e, t, n)) == keys::TAG_LOCK,
        proper(ns, e) ==> subject(keys::lock_key(ns, e, t, n)) == Some((ns, e, n)),
{
    scoped_keys(keys::TAG_LOCK, ns, e, bytes::be(t.0 as nat, 8), n.0);
    assert(keys::lock_key(ns, e, t, n) =~= keys::scope_key(keys::TAG_LOCK, ns, e) + (bytes::be(
        t.0 as nat,
        8,
    ) + bytes::be(n.0 as nat, 8)));
}

broadcast proof fn expiry_keys(ns: Seq<char>, e: Seq<char>, t: Timestamp, n: SequenceNumber)
    ensures
        tag_of(#[trigger] keys::expiry_key(ns, e, t, n)) == keys::TAG_EXPIRY,
        proper(ns, e) ==> subject(keys::expiry_key(ns, e, t, n)) == Some((ns, e, n)),
{
    scoped_keys(keys::TAG_EXPIRY, ns, e, bytes::be(t.0 as nat, 8), n.0);
    assert(keys::expiry_key(ns, e, t, n) =~= keys::scope_key(keys::TAG_EXPIRY, ns, e) + (bytes::be(
        t.0 as nat,
        8,
    ) + bytes::be(n.0 as nat, 8)));
}

broadcast proof fn scheduled_keys(ns: Seq<char>, e: Seq<char>, t: Timestamp, n: SequenceNumber)
    ensures
        tag_of(#[trigger] keys::scheduled_key(ns, e, t, n)) == keys::TAG_SCHEDULED,
        proper(ns, e) ==> subject(keys::scheduled_key(ns, e, t, n)) == Some((ns, e, n)),
{
    scoped_keys(keys::TAG_SCHEDULED, ns, e, bytes::be(t.0 as nat, 8), n.0);
    assert(keys::scheduled_key(ns, e, t, n) =~= keys::scope_key(keys::TAG_SCHEDULED, ns, e) + (
    bytes::be(t.0 as nat, 8) + bytes::be(n.0 as nat, 8)));
}

broadcast proof fn counter_keys(ns: Seq<char>, e: Seq<char>)
    ensures
        tag_of(#[trigger] keys::queue_counters_key(ns, e)) == keys::TAG_QUEUE_COUNTERS,
{
    reveal(tag_of);
}

broadcast proof fn config_keys(ns: Seq<char>, e: Seq<char>)
    ensures
        tag_of(#[trigger] keys::queue_config_key(ns, e)) == keys::TAG_QUEUE_CONFIG,
{
    reveal(tag_of);
}

broadcast proof fn topic_keys(ns: Seq<char>, e: Seq<char>)
    ensures
        tag_of(#[trigger] keys::topic_config_key(ns, e)) == keys::TAG_TOPIC_CONFIG,
{
    reveal(tag_of);
}

broadcast proof fn subscription_keys(ns: Seq<char>, e: Seq<char>, name: Seq<char>)
    ensures
        tag_of(#[trigger] keys::topic_subscription_key(ns, e, name))
            == keys::TAG_TOPIC_SUBSCRIPTION,
{
    reveal(tag_of);
}

broadcast proof fn rule_keys(ns: Seq<char>, e: Seq<char>, name: Seq<char>)
    ensures
        tag_of(#[trigger] keys::subscription_rule_key(ns, e, name)) == keys::TAG_SUBSCRIPTION_RULE,
{
    reveal(tag_of);
}

broadcast proof fn identifier_keys(ns: Seq<char>, e: Seq<char>, id: Seq<char>)
    ensures
        tag_of(#[trigger] keys::duplicate_id_key(ns, e, id)) == keys::TAG_DUPLICATE_ID,
{
    reveal(tag_of);
}

broadcast proof fn retention_keys(ns: Seq<char>, e: Seq<char>, t: Timestamp, id: Seq<char>)
    ensures
        tag_of(#[trigger] keys::duplicate_expiry_key(ns, e, t, id)) == keys::TAG_DUPLICATE_EXPIRY,
{
    reveal(tag_of);
}

broadcast proof fn session_keys(ns: Seq<char>, e: Seq<char>, id: Seq<char>)
    ensures
        tag_of(#[trigger] keys::session_key(ns, e, id)) == keys::TAG_SESSION,
{
    reveal(tag_of);
}

broadcast proof fn session_lock_keys(ns: Seq<char>, e: Seq<char>, t: Timestamp, id: Seq<char>)
    ensures
        tag_of(#[trigger] keys::session_lock_key(ns, e, t, id)) == keys::TAG_SESSION_LOCK,
{
    reveal(tag_of);
}

broadcast group group_keys {
    message_keys,
    ready_keys,
    deferred_keys,
    session_ready_keys,
    lock_keys,
    expiry_keys,
    scheduled_keys,
    counter_keys,
    config_keys,
    topic_keys,
    subscription_keys,
    rule_keys,
    identifier_keys,
    retention_keys,
    session_keys,
    session_lock_keys,
}

// ---- one message at a time -------------------------------------------------

/// Whether a key, if it is a message or an entry of one, speaks of a message.
pub open spec fn concerns(
    key: Seq<u8>,
    namespace: Seq<char>,
    entity: Seq<char>,
    n: SequenceNumber,
) -> bool {
    is_mark(key) || tag_of(key) == keys::TAG_MESSAGE ==> subject(key) == Some(
        (namespace, entity, n),
    )
}

/// Whether two stores differ in a message and its entries alone, as far as
/// messages go.
#[verifier::opaque]
pub open spec fn same_elsewhere(
    before: Contents,
    after: Contents,
    namespace: Seq<char>,
    entity: Seq<char>,
    n: SequenceNumber,
) -> bool {
    forall|key: Seq<u8>|
        #![trigger after.dom().contains(key)]
        #![trigger before.dom().contains(key)]
        !concerns(key, namespace, entity, n) ==> {
            &&& after.dom().contains(key) == before.dom().contains(key)
            &&& before.dom().contains(key) ==> after[key] == before[key]
        }
}

/// Whether no entry speaks of a message that it does not belong to.
pub open spec fn no_stray(
    m: Contents,
    namespace: Seq<char>,
    entity: Seq<char>,
    n: SequenceNumber,
) -> bool {
    forall|key: Seq<u8>| #[trigger]
        m.dom().contains(key) && is_mark(key) && subject(key) == Some((namespace, entity, n))
            ==> (message_in(m, namespace, entity, n) matches Some(record) && marks(
            namespace,
            entity,
            record,
            key,
        ))
}

broadcast proof fn one_more_elsewhere(
    before: Contents,
    m: Contents,
    ops: Seq<OpView>,
    op: OpView,
    namespace: Seq<char>,
    entity: Seq<char>,
    n: SequenceNumber,
)
    requires
        same_elsewhere(before, storage::apply_ops(m, ops), namespace, entity, n),
        concerns(
            match op {
                OpView::Put { key, .. } => key,
                OpView::Delete { key } => key,
            },
            namespace,
            entity,
            n,
        ),
    ensures
        #[trigger] same_elsewhere(
            before,
            storage::apply_ops(m, ops.push(op)),
            namespace,
            entity,
            n,
        ),
{
    reveal(same_elsewhere);
    history::one_more_change(m, ops, op);
}

broadcast proof fn nothing_elsewhere(
    m: Contents,
    namespace: Seq<char>,
    entity: Seq<char>,
    n: SequenceNumber,
)
    ensures
        #[trigger] same_elsewhere(m, m, namespace, entity, n),
{
    reveal(same_elsewhere);
}

broadcast group group_places {
    group_keys,
    one_more_elsewhere,
    nothing_elsewhere,
    history::one_more_change,
}

/// The entries of a message speak of it.
proof fn marks_speak_of_their_message(
    namespace: Seq<char>,
    entity: Seq<char>,
    record: RecordView,
    key: Seq<u8>,
)
    requires
        marks(namespace, entity, record, key),
    ensures
        is_mark(key),
        proper(namespace, entity) ==> subject(key) == Some((namespace, entity, record.sequence)),
{
    broadcast use group_keys;

}

/// The message that an entry belongs to.
proof fn entries_have_their_message(m: Contents, key: Seq<u8>) -> (found: (
    Seq<char>,
    Seq<char>,
    SequenceNumber,
))
    requires
        indexed(m),
        m.dom().contains(key),
        is_mark(key),
    ensures
        accounted(m, key, found.0, found.1, found.2),
        subject(key) == Some(found),
{
    reveal(indexed);
    let (namespace, entity, n) = choose|
        namespace: Seq<char>,
        entity: Seq<char>,
        n: SequenceNumber,
    | accounted(m, key, namespace, entity, n);
    assert(well_placed(m, namespace, entity, n));
    marks_speak_of_their_message(
        namespace,
        entity,
        message_in(m, namespace, entity, n)->Some_0,
        key,
    );
    (namespace, entity, n)
}

proof fn messages_are_well_placed(
    m: Contents,
    namespace: Seq<char>,
    entity: Seq<char>,
    n: SequenceNumber,
)
    requires
        indexed(m),
        proper(namespace, entity),
    ensures
        well_placed(m, namespace, entity, n),
        no_stray(m, namespace, entity, n),
{
    assert(well_placed(m, namespace, entity, n)) by {
        reveal(indexed);
    }
    assert forall|key: Seq<u8>| #[trigger]
        m.dom().contains(key) && is_mark(key) && subject(key) == Some(
            (namespace, entity, n),
        ) implies (message_in(m, namespace, entity, n) matches Some(record) && marks(
        namespace,
        entity,
        record,
        key,
    )) by {
        let found = entries_have_their_message(m, key);
    }
}

/// The entry of a message in an index of deadlines.
pub open spec fn deadline_key(
    tag: u8,
    namespace: Seq<char>,
    entity: Seq<char>,
    at: Timestamp,
    n: SequenceNumber,
) -> Seq<u8> {
    keys::numbered(keys::numbered(keys::scope_key(tag, namespace, entity), at.0), n.0)
}

/// Whether an entry of an index of deadlines names a message that it stands for.
pub open spec fn is_timed(
    m: Contents,
    tag: u8,
    namespace: Seq<char>,
    entity: Seq<char>,
    key: Seq<u8>,
) -> bool {
    &&& keys::last_deadline(key) matches Some((at, n))
    &&& key == deadline_key(tag, namespace, entity, at, n)
    &&& message_in(m, namespace, entity, n) matches Some(record)
    &&& record.sequence == n
    &&& has_a_proper_state(record)
    &&& tag == keys::TAG_LOCK ==> (record.state matches MessageState::Locked {
        locked_until,
        ..
    } && locked_until == at)
    &&& tag == keys::TAG_EXPIRY ==> record.state is Ready && record.expires_at == Some(at)
    &&& tag == keys::TAG_SCHEDULED ==> record.state is Scheduled && record.scheduled_enqueue_at
        == Some(at)
}

/// The entries of an index of deadlines lead to messages with these deadlines.
pub(crate) proof fn deadlines_lead_to_messages(
    m: Contents,
    tag: u8,
    namespace: Seq<char>,
    entity: Seq<char>,
    key: Seq<u8>,
)
    requires
        indexed(m),
        proper(namespace, entity),
        tag == keys::TAG_LOCK || tag == keys::TAG_EXPIRY || tag == keys::TAG_SCHEDULED,
        m.dom().contains(key),
        bytes::has_prefix(key, keys::scope_key(tag, namespace, entity)),
    ensures
        is_timed(m, tag, namespace, entity, key),
{
    broadcast use group_keys;

    let scope = keys::scope_key(tag, namespace, entity);
    let rest = key.skip(scope.len() as int);
    assert(key =~= scope + rest) by {
        assert(key.subrange(0, scope.len() as int) =~= scope);
    }
    assert(tag_of(key) == tag) by {
        reveal(tag_of);
    }
    let (ns, e, n) = entries_have_their_message(m, key);
    order::scopes_read_back(tag, namespace, entity, rest);
    assert((ns, e) == (namespace, entity)) by {
        reveal(subject);
    }
    messages_are_well_placed(m, ns, e, n);
    let record = message_in(m, ns, e, n)->Some_0;
    assert(marks(ns, e, record, key));
    let at = if tag == keys::TAG_LOCK {
        record.state->Locked_locked_until
    } else if tag == keys::TAG_EXPIRY {
        record.expires_at->Some_0
    } else {
        record.scheduled_enqueue_at->Some_0
    };
    assert(key == deadline_key(tag, namespace, entity, at, n));
    order::deadlines_read_back(scope, at, n);
}

/// A ready entry leads to a ready message of the session that it names.
pub(crate) proof fn ready_entries_lead_to_ready_messages(
    m: Contents,
    namespace: Seq<char>,
    entity: Seq<char>,
    session: Option<Seq<char>>,
    n: SequenceNumber,
)
    requires
        indexed(m),
        proper(namespace, entity),
        m.dom().contains(
            match session {
                Some(id) => keys::session_ready_key(namespace, entity, id, n),
                None => keys::ready_key(namespace, entity, n),
            },
        ),
    ensures
        message_in(m, namespace, entity, n) matches Some(record) && record.state is Ready
            && record.session_id == session,
{
    broadcast use group_keys;

    let key = match session {
        Some(id) => keys::session_ready_key(namespace, entity, id, n),
        None => keys::ready_key(namespace, entity, n),
    };
    let found = entries_have_their_message(m, key);
    messages_are_well_placed(m, namespace, entity, n);
    let record = message_in(m, namespace, entity, n)->Some_0;
    assert(marks(namespace, entity, record, key));
    assert(key == place(namespace, entity, record));
    if let Some(id) = session {
        let other = record.session_id->Some_0;
        let scope = keys::scope_key(keys::TAG_SESSION_READY, namespace, entity);
        let from = scope.len() as int;
        bytes::be_len(n.0 as nat, 8);
        assert(key.subrange(from, key.len() - 9) =~= bytes::utf8(id));
        assert(key.subrange(from, key.len() - 9) =~= bytes::utf8(other));
        bytes::utf8_injective(id, other);
    }
}

/// A ready message of a session has its entry, and the name of the session is clean.
pub(crate) proof fn ready_messages_have_clean_entries(
    m: Contents,
    namespace: Seq<char>,
    entity: Seq<char>,
    n: SequenceNumber,
)
    requires
        indexed(m),
        proper(namespace, entity),
        message_in(m, namespace, entity, n) matches Some(record) && record.state is Ready
            && record.session_id is Some,
    ensures
        ({
            let id = message_in(m, namespace, entity, n)->Some_0.session_id->Some_0;
            order::clean(id) && m.dom().contains(
                keys::session_ready_key(namespace, entity, id, n),
            )
        }),
{
    messages_are_well_placed(m, namespace, entity, n);
    let record = message_in(m, namespace, entity, n)->Some_0;
    assert(marks(namespace, entity, record, place(namespace, entity, record)));
}

/// Messages elsewhere are the same.
proof fn messages_elsewhere_stay(
    before: Contents,
    after: Contents,
    namespace: Seq<char>,
    entity: Seq<char>,
    n: SequenceNumber,
    ns: Seq<char>,
    e: Seq<char>,
    other: SequenceNumber,
)
    requires
        same_elsewhere(before, after, namespace, entity, n),
        proper(ns, e),
        (ns, e, other) != (namespace, entity, n),
    ensures
        message_in(after, ns, e, other) == message_in(before, ns, e, other),
{
    broadcast use group_keys;

    reveal(same_elsewhere);
    let key = keys::message_key(ns, e, other);
    assert(!concerns(key, namespace, entity, n));
    assert(after.dom().contains(key) == before.dom().contains(key));
}

/// If one message and its entries change together, everything still stands where
/// it belongs.
proof fn one_message_changes(
    before: Contents,
    after: Contents,
    namespace: Seq<char>,
    entity: Seq<char>,
    n: SequenceNumber,
)
    requires
        indexed(before),
        proper(namespace, entity),
        same_elsewhere(before, after, namespace, entity, n),
        well_placed(after, namespace, entity, n),
        no_stray(after, namespace, entity, n),
    ensures
        indexed(after),
{
    assert forall|ns: Seq<char>, e: Seq<char>, other: SequenceNumber|
        proper(ns, e) implies #[trigger] well_placed(after, ns, e, other) by {
        if (ns, e, other) != (namespace, entity, n) {
            messages_elsewhere_stay(before, after, namespace, entity, n, ns, e, other);
            messages_are_well_placed(before, ns, e, other);
            if let Some(record) = message_in(after, ns, e, other) {
                assert forall|key: Seq<u8>| #[trigger]
                    marks(ns, e, record, key) implies after.dom().contains(key) by {
                    marks_speak_of_their_message(ns, e, record, key);
                    reveal(same_elsewhere);
                    assert(before.dom().contains(key));
                }
            }
        }
    }
    assert forall|key: Seq<u8>|
        #![trigger after.dom().contains(key)]
        after.dom().contains(key) && is_mark(key) implies exists|
        ns: Seq<char>,
        e: Seq<char>,
        other: SequenceNumber,
    | #[trigger] accounted(after, key, ns, e, other) by {
        if subject(key) == Some((namespace, entity, n)) {
            assert(accounted(after, key, namespace, entity, n));
        } else {
            assert(before.dom().contains(key)) by {
                reveal(same_elsewhere);
            }
            let (ns, e, other) = entries_have_their_message(before, key);
            messages_elsewhere_stay(before, after, namespace, entity, n, ns, e, other);
            assert(accounted(after, key, ns, e, other));
        }
    }
    reveal(indexed);
}

// ---- the steps of a message ------------------------------------------------

/// Whether two records of a message have the same entries.
spec fn alike(found: RecordView, record: RecordView) -> bool {
    &&& record.sequence == found.sequence
    &&& record.state == found.state
    &&& record.session_id == found.session_id
    &&& record.scheduled_enqueue_at == found.scheduled_enqueue_at
    &&& record.expires_at == found.expires_at
}

/// Whether further changes leave everything where it belongs, and change one
/// message of an entity alone.
spec fn moves_one(
    m: Contents,
    batch: Seq<OpView>,
    changes: Seq<OpView>,
    c: CommandView,
    n: SequenceNumber,
) -> bool {
    let before = storage::apply_ops(m, batch);
    let after = storage::apply_ops(m, changes);
    &&& indexed(after)
    &&& same_elsewhere(before, after, c.namespace, c.entity, n)
}

proof fn stored_messages_are_in(
    m: Contents,
    namespace: Seq<char>,
    entity: Seq<char>,
    record: RecordView,
)
    requires
        m.dom().contains(keys::message_key(namespace, entity, record.sequence)),
        m[keys::message_key(namespace, entity, record.sequence)] == codec::encoded::<MessageRecord>(
            record,
        ),
        orderly::orderly_record(record),
    ensures
        message_in(m, namespace, entity, record.sequence) == Some(record),
{
    message::stored_messages_read_back(record);
}

/// A message is gone, with all its entries.
proof fn vanishing_keeps_places(
    before: Contents,
    after: Contents,
    namespace: Seq<char>,
    entity: Seq<char>,
    found: RecordView,
)
    requires
        indexed(before),
        proper(namespace, entity),
        message_in(before, namespace, entity, found.sequence) == Some(found),
        same_elsewhere(before, after, namespace, entity, found.sequence),
        !after.dom().contains(keys::message_key(namespace, entity, found.sequence)),
        forall|key: Seq<u8>| #[trigger]
            after.dom().contains(key) && is_mark(key) && subject(key) == Some(
                (namespace, entity, found.sequence),
            ) ==> before.dom().contains(key) && !marks(namespace, entity, found, key),
    ensures
        indexed(after),
        message_in(after, namespace, entity, found.sequence) is None,
{
    messages_are_well_placed(before, namespace, entity, found.sequence);
    one_message_changes(before, after, namespace, entity, found.sequence);
}

/// A message leaves its entity, with all its entries.
proof fn leaving_keeps_places(
    m: Contents,
    c: CommandView,
    found: RecordView,
    record: RecordView,
    batch: Seq<OpView>,
)
    requires
        indexed(storage::apply_ops(m, batch)),
        proper(c.namespace, c.entity),
        message_in(storage::apply_ops(m, batch), c.namespace, c.entity, record.sequence) == Some(
            found,
        ),
        alike(found, record),
    ensures
        ({
            let left = shared::without_expiry(
                c,
                record.expires_at,
                record.sequence,
                shared::without_index(c, record, batch).push(
                    shared::drop_key(keys::message_key(c.namespace, c.entity, record.sequence)),
                ),
            );
            &&& moves_one(m, batch, left, c, record.sequence)
            &&& message_in(
                storage::apply_ops(m, left),
                c.namespace,
                c.entity,
                record.sequence,
            ) is None
        }),
{
    broadcast use group_places;

    let n = record.sequence;
    let before = storage::apply_ops(m, batch);
    let left = shared::without_expiry(
        c,
        record.expires_at,
        n,
        shared::without_index(c, record, batch).push(
            shared::drop_key(keys::message_key(c.namespace, c.entity, n)),
        ),
    );
    let after = storage::apply_ops(m, left);
    messages_are_well_placed(before, c.namespace, c.entity, n);
    assert(same_elsewhere(before, after, c.namespace, c.entity, n));
    vanishing_keeps_places(before, after, c.namespace, c.entity, found);
}

/// A message appears, under a number that no message of the entity has.
proof fn appearing_keeps_places(
    before: Contents,
    after: Contents,
    namespace: Seq<char>,
    entity: Seq<char>,
    record: RecordView,
)
    requires
        indexed(before),
        proper(namespace, entity),
        message_in(before, namespace, entity, record.sequence) is None,
        same_elsewhere(before, after, namespace, entity, record.sequence),
        message_in(after, namespace, entity, record.sequence) == Some(record),
        well_placed(after, namespace, entity, record.sequence),
        forall|key: Seq<u8>| #[trigger]
            after.dom().contains(key) && is_mark(key) && !before.dom().contains(key) ==> marks(
                namespace,
                entity,
                record,
                key,
            ),
    ensures
        indexed(after),
{
    messages_are_well_placed(before, namespace, entity, record.sequence);
    assert(no_stray(after, namespace, entity, record.sequence));
    one_message_changes(before, after, namespace, entity, record.sequence);
}

/// Whether further changes leave everything where it belongs, and change messages
/// of one number alone, in an entity and its dead-letter queue.
spec fn moves_number(
    m: Contents,
    batch: Seq<OpView>,
    changes: Seq<OpView>,
    c: CommandView,
    n: SequenceNumber,
) -> bool {
    let before = storage::apply_ops(m, batch);
    let after = storage::apply_ops(m, changes);
    &&& indexed(after)
    &&& message_in(before, c.namespace, c.entity, n) is Some
    &&& forall|ns: Seq<char>, e: Seq<char>, other: SequenceNumber|
        proper(ns, e) && !(ns == c.namespace && other == n && of_family(c, e)) ==> #[trigger]
            message_in(after, ns, e, other) == message_in(before, ns, e, other)
    &&& message_in(after, c.namespace, c.entity, n) is None || forall|shadow: Seq<char>|
        machine::shadow_of(c.entity) == Ok::<Seq<char>, ErrorView>(shadow) ==> #[trigger]
            message_in(after, c.namespace, shadow, n) == message_in(
            before,
            c.namespace,
            shadow,
            n,
        )
}

/// Whether an entity is the one that a command names, or its dead-letter queue.
spec fn of_family(c: CommandView, entity: Seq<char>) -> bool {
    entity == c.entity || machine::shadow_of(c.entity) == Ok::<Seq<char>, ErrorView>(entity)
}

proof fn one_is_a_number(
    m: Contents,
    batch: Seq<OpView>,
    changes: Seq<OpView>,
    c: CommandView,
    n: SequenceNumber,
)
    requires
        moves_one(m, batch, changes, c, n),
        order::clean(c.namespace),
        message_in(storage::apply_ops(m, batch), c.namespace, c.entity, n) is Some,
    ensures
        moves_number(m, batch, changes, c, n),
{
    let before = storage::apply_ops(m, batch);
    let after = storage::apply_ops(m, changes);
    assert forall|ns: Seq<char>, e: Seq<char>, other: SequenceNumber|
        proper(ns, e) && (ns, e, other) != (c.namespace, c.entity, n) implies (
    #[trigger] message_in(after, ns, e, other)) == message_in(before, ns, e, other) by {
        messages_elsewhere_stay(before, after, c.namespace, c.entity, n, ns, e, other);
    }
    identifier::dead_letter_paths_are_longer(c.entity);
    orderly::internal_paths_are_clean(identifier::dead_letter_path(c.entity));
}

/// Whether a message comes with a command: to the entity it names, under a number
/// from `low` up to `next`, or out of that entity to its dead-letter queue.
pub open spec fn born(
    m: Contents,
    now: Contents,
    c: CommandView,
    low: u64,
    next: u64,
    entity: Seq<char>,
    n: SequenceNumber,
) -> bool {
    ||| entity == c.entity && low <= n.0 < next
    ||| {
        &&& machine::shadow_of(c.entity) == Ok::<Seq<char>, ErrorView>(entity)
        &&& message_in(m, c.namespace, c.entity, n) is Some
        &&& message_in(now, c.namespace, c.entity, n) is None
    }
}

/// Whether every message that was not there before has come with the command.
pub open spec fn grown(
    m: Contents,
    now: Contents,
    c: CommandView,
    low: u64,
    next: u64,
) -> bool {
    forall|ns: Seq<char>, e: Seq<char>, n: SequenceNumber|
        proper(ns, e) && (#[trigger] message_in(now, ns, e, n)) is Some && message_in(m, ns, e, n)
            is None ==> ns == c.namespace && born(m, now, c, low, next, e, n)
}

/// A message that was there before changes or moves.
proof fn moving_grows(
    m: Contents,
    batch: Seq<OpView>,
    changes: Seq<OpView>,
    c: CommandView,
    n: SequenceNumber,
    low: u64,
    next: u64,
)
    requires
        moves_number(m, batch, changes, c, n),
        grown(m, storage::apply_ops(m, batch), c, low, next),
        message_in(m, c.namespace, c.entity, n) is Some,
        proper(c.namespace, c.entity),
    ensures
        grown(m, storage::apply_ops(m, changes), c, low, next),
{
    let before = storage::apply_ops(m, batch);
    let after = storage::apply_ops(m, changes);
    assert forall|ns: Seq<char>, e: Seq<char>, k: SequenceNumber|
        proper(ns, e) && (#[trigger] message_in(after, ns, e, k)) is Some && message_in(
            m,
            ns,
            e,
            k,
        ) is None implies ns == c.namespace && born(m, after, c, low, next, e, k) by {
        if !(ns == c.namespace && k == n && of_family(c, e)) {
            assert(message_in(before, ns, e, k) is Some);
            if e != c.entity {
                assert(k != n);
                assert(message_in(after, c.namespace, c.entity, k) == message_in(
                    before,
                    c.namespace,
                    c.entity,
                    k,
                ));
            }
        } else if message_in(after, c.namespace, c.entity, n) is Some {
            assert(message_in(before, ns, e, k) is Some);
        }
    }
}

/// Nothing has come yet.
proof fn nothing_grows(m: Contents, c: CommandView, low: u64, next: u64)
    ensures
        grown(m, m, c, low, next),
{
}

/// Changes to anything but messages bring none.
proof fn others_grow_nothing(
    m: Contents,
    before: Contents,
    after: Contents,
    c: CommandView,
    low: u64,
    next: u64,
)
    requires
        grown(m, before, c, low, next),
        forall|ns: Seq<char>, e: Seq<char>, n: SequenceNumber| #[trigger]
            message_in(after, ns, e, n) == message_in(before, ns, e, n),
    ensures
        grown(m, after, c, low, next),
{
    assert forall|ns: Seq<char>, e: Seq<char>, n: SequenceNumber|
        proper(ns, e) && (#[trigger] message_in(after, ns, e, n)) is Some && message_in(
            m,
            ns,
            e,
            n,
        ) is None implies ns == c.namespace && born(m, after, c, low, next, e, n) by {
        assert(message_in(before, ns, e, n) is Some);
        assert(message_in(after, ns, c.entity, n) == message_in(before, ns, c.entity, n));
    }
}

/// Whether the dead-letter queue of an entity has no message of a number.
spec fn shadow_is_free(m: Contents, c: CommandView, n: SequenceNumber) -> bool {
    machine::shadow_of(c.entity) matches Ok(shadow) ==> message_in(m, c.namespace, shadow, n)
        is None
}

proof fn dead_lettering_keeps_places(
    m: Contents,
    c: CommandView,
    found: RecordView,
    record: RecordView,
    reason: DeadLetterReasonView,
    description: Seq<char>,
    batch: Seq<OpView>,
)
    requires
        indexed(storage::apply_ops(m, batch)),
        proper(c.namespace, c.entity),
        message_in(storage::apply_ops(m, batch), c.namespace, c.entity, record.sequence) == Some(
            found,
        ),
        alike(found, record),
        orderly::orderly_record(record),
        <DeadLetterReason as Wire>::fits(reason),
        <String as Wire>::fits(description),
        shadow_is_free(storage::apply_ops(m, batch), c, record.sequence),
    ensures
        shared::dead_lettered(c, record, reason, description, batch) matches Ok(changes)
            ==> moves_number(m, batch, changes, c, record.sequence),
{
    broadcast use group_places;

    if let Ok(shadow) = machine::shadow_of(c.entity) {
        let n = record.sequence;
        let before = storage::apply_ops(m, batch);
        let left = shared::without_expiry(
            c,
            record.expires_at,
            n,
            shared::without_index(c, record, batch).push(
                shared::drop_key(keys::message_key(c.namespace, c.entity, n)),
            ),
        );
        leaving_keeps_places(m, c, found, record, batch);
        let middle = storage::apply_ops(m, left);
        let dead = shared::dead_record(record, reason, description, c.issued_at);
        let changes = left.push(
            shared::put(
                keys::message_key(c.namespace, shadow, n),
                codec::encoded::<MessageRecord>(dead),
            ),
        ).push(shared::mark(keys::ready_key(c.namespace, shadow, n)));
        let after = storage::apply_ops(m, changes);
        orderly::internal_paths_are_clean(identifier::dead_letter_path(c.entity));
        orderly::dead_records_are_orderly(record, reason, description, c.issued_at);
        assert(shadow != c.entity) by {
            identifier::dead_letter_paths_are_longer(c.entity);
        }
        messages_elsewhere_stay(
            before,
            middle,
            c.namespace,
            c.entity,
            n,
            c.namespace,
            shadow,
            n,
        );
        assert(same_elsewhere(middle, after, c.namespace, shadow, n));
        stored_messages_are_in(after, c.namespace, shadow, dead);
        appearing_keeps_places(middle, after, c.namespace, shadow, dead);
        assert forall|ns: Seq<char>, e: Seq<char>, other: SequenceNumber|
            proper(ns, e) && !(ns == c.namespace && other == n && of_family(c, e)) implies (
        #[trigger] message_in(after, ns, e, other)) == message_in(before, ns, e, other) by {
            messages_elsewhere_stay(before, middle, c.namespace, c.entity, n, ns, e, other);
            messages_elsewhere_stay(middle, after, c.namespace, shadow, n, ns, e, other);
        }
        messages_elsewhere_stay(
            middle,
            after,
            c.namespace,
            shadow,
            n,
            c.namespace,
            c.entity,
            n,
        );
    }
}

/// A message stays in its entity, in another state.
proof fn changing_keeps_places(
    before: Contents,
    after: Contents,
    namespace: Seq<char>,
    entity: Seq<char>,
    found: RecordView,
    record: RecordView,
)
    requires
        indexed(before),
        proper(namespace, entity),
        message_in(before, namespace, entity, record.sequence) == Some(found),
        orderly::orderly_record(record),
        has_a_proper_state(record),
        same_elsewhere(before, after, namespace, entity, record.sequence),
        after.dom().contains(keys::message_key(namespace, entity, record.sequence)),
        after[keys::message_key(namespace, entity, record.sequence)] == codec::encoded::<
            MessageRecord,
        >(record),
        forall|key: Seq<u8>| #[trigger]
            marks(namespace, entity, record, key) ==> after.dom().contains(key),
        forall|key: Seq<u8>| #[trigger]
            after.dom().contains(key) && is_mark(key) && subject(key) == Some(
                (namespace, entity, record.sequence),
            ) ==> marks(namespace, entity, record, key) || (before.dom().contains(key) && !marks(
                namespace,
                entity,
                found,
                key,
            )),
    ensures
        indexed(after),
        message_in(after, namespace, entity, record.sequence) == Some(record),
{
    messages_are_well_placed(before, namespace, entity, record.sequence);
    stored_messages_are_in(after, namespace, entity, record);
    assert(no_stray(after, namespace, entity, record.sequence)) by {
        assert forall|key: Seq<u8>| #[trigger]
            after.dom().contains(key) && is_mark(key) && subject(key) == Some(
                (namespace, entity, record.sequence),
            ) implies marks(namespace, entity, record, key) by {
            if before.dom().contains(key) {
                assert(marks(namespace, entity, found, key));
            }
        }
    }
    one_message_changes(before, after, namespace, entity, record.sequence);
}

proof fn returning_keeps_places(
    m: Contents,
    c: CommandView,
    found: RecordView,
    record: RecordView,
    locked_until: Timestamp,
    origin: DeliveryOrigin,
    batch: Seq<OpView>,
)
    requires
        indexed(storage::apply_ops(m, batch)),
        proper(c.namespace, c.entity),
        message_in(storage::apply_ops(m, batch), c.namespace, c.entity, record.sequence) == Some(
            found,
        ),
        alike(found, record),
        orderly::orderly_record(record),
        found.state matches MessageState::Locked { locked_until: until, .. } && until
            == locked_until,
    ensures
        shared::returned(c, record, locked_until, origin, batch) matches Ok(changes) ==> moves_one(
            m,
            batch,
            changes,
            c,
            record.sequence,
        ),
{
    broadcast use group_places;

    if let Ok(changes) = shared::returned(c, record, locked_until, origin, batch) {
        let before = storage::apply_ops(m, batch);
        let after = storage::apply_ops(m, changes);
        let next = match origin {
            DeliveryOrigin::Ready => RecordView { state: MessageState::Ready, ..record },
            _ => RecordView { state: MessageState::Deferred, ..record },
        };
        orderly::changed_records_are_orderly(record, next);
        assert(same_elsewhere(before, after, c.namespace, c.entity, record.sequence));
        changing_keeps_places(before, after, c.namespace, c.entity, found, next);
    }
}

proof fn handing_out_keeps_places(
    m: Contents,
    c: CommandView,
    config: QueueConfig,
    mode: ReceiveMode,
    asked: Option<u64>,
    record: RecordView,
    batch: Seq<OpView>,
)
    requires
        indexed(storage::apply_ops(m, batch)),
        proper(c.namespace, c.entity),
        message_in(storage::apply_ops(m, batch), c.namespace, c.entity, record.sequence) == Some(
            record,
        ),
        record.state is Ready,
        orderly::orderly_record(record),
    ensures
        delivery::handed_out(m, c, config, mode, asked, record.sequence, record, batch) matches Ok(
            (changes, _),
        ) ==> moves_one(m, batch, changes, c, record.sequence),
{
    broadcast use group_places;

    let n = record.sequence;
    if let Ok((changes, _)) = delivery::handed_out(
        m,
        c,
        config,
        mode,
        asked,
        n,
        record,
        batch,
    ) {
        let before = storage::apply_ops(m, batch);
        let after = storage::apply_ops(m, changes);
        assert(same_elsewhere(before, after, c.namespace, c.entity, n));
        match mode {
            ReceiveMode::PeekLock => {
                let locked = RecordView {
                    delivery_count: shared::count_up(record.delivery_count),
                    state: MessageState::Locked {
                        token: LockToken(machine::counters_of(m, c)->Ok_0.next_lock_token),
                        locked_until: time::later(
                            c.issued_at,
                            delivery::lock_millis(config, asked),
                        ),
                        origin: DeliveryOrigin::Ready,
                    },
                    ..record
                };
                orderly::changed_records_are_orderly(record, locked);
                changing_keeps_places(before, after, c.namespace, c.entity, record, locked);
            },
            ReceiveMode::ReceiveAndDelete => {
                vanishing_keeps_places(before, after, c.namespace, c.entity, record);
            },
        }
    }
}

/// What a held lock says of the message.
proof fn held_locks_are_stored(
    m: Contents,
    c: CommandView,
    sequence: SequenceNumber,
    lock_token: LockToken,
)
    requires
        indexed(m),
        proper(c.namespace, c.entity),
    ensures
        shared::held_lock(m, c, sequence, lock_token) matches Ok((record, locked_until, origin))
            ==> {
            &&& message_in(m, c.namespace, c.entity, sequence) == Some(record)
            &&& record.sequence == sequence
            &&& orderly::orderly_record(record)
            &&& record.state == (MessageState::Locked { token: lock_token, locked_until, origin })
            &&& origin != DeliveryOrigin::Scheduled
        },
{
    messages_are_well_placed(m, c.namespace, c.entity, sequence);
}

/// Whether a whole command leaves everything where it belongs, and brings no message
/// but to the dead-letter queue of its entity.
spec fn keeps_places(m: Contents, c: CommandView, step: machine::Step) -> bool {
    step matches Ok((changes, _)) ==> {
        &&& indexed(storage::apply_ops(m, changes))
        &&& grown(m, storage::apply_ops(m, changes), c, 0, 0)
    }
}

/// A message of the entity changes where it is, or goes.
proof fn one_grows_nothing(m: Contents, changes: Seq<OpView>, c: CommandView, n: SequenceNumber)
    requires
        moves_one(m, Seq::empty(), changes, c, n),
        proper(c.namespace, c.entity),
        message_in(m, c.namespace, c.entity, n) is Some,
    ensures
        grown(m, storage::apply_ops(m, changes), c, 0, 0),
{
    let batch: Seq<OpView> = Seq::empty();
    assert(storage::apply_ops(m, batch) == m);
    nothing_grows(m, c, 0, 0);
    one_is_a_number(m, batch, changes, c, n);
    moving_grows(m, batch, changes, c, n, 0, 0);
}

proof fn renewing_keeps_places(m: Contents, c: CommandView)
    requires
        indexed(m),
        proper(c.namespace, c.entity),
        c.kind is RenewLock,
    ensures
        keeps_places(m, c, apply::command_step(m, c, Seq::empty())),
{
    broadcast use group_places;

    let batch: Seq<OpView> = Seq::empty();
    let sequence = c.kind->RenewLock_sequence;
    let lock_token = c.kind->RenewLock_lock_token;
    assert(storage::apply_ops(m, batch) == m);
    nothing_grows(m, c, 0, 0);
    held_locks_are_stored(m, c, sequence, lock_token);
    if let Ok(config) = machine::config_of(m, c) {
        if let Ok((found, _, origin)) = shared::held_lock(m, c, sequence, lock_token) {
            let (changes, _) = apply::command_step(m, c, batch)->Ok_0;
            let after = storage::apply_ops(m, changes);
            let renewed = RecordView {
                state: MessageState::Locked {
                    token: lock_token,
                    locked_until: time::later(
                        c.issued_at,
                        delivery::lock_millis(config, c.kind->RenewLock_lock_duration_millis),
                    ),
                    origin,
                },
                ..found
            };
            orderly::changed_records_are_orderly(found, renewed);
            assert(same_elsewhere(m, after, c.namespace, c.entity, sequence));
            changing_keeps_places(m, after, c.namespace, c.entity, found, renewed);
            one_grows_nothing(m, changes, c, sequence);
        }
    }
}

proof fn settling_keeps_places(m: Contents, c: CommandView)
    requires
        indexed(m),
        orderly::orderly_command(c),
        forall|n: SequenceNumber| #[trigger]
            message_in(m, c.namespace, c.entity, n) is Some ==> shadow_is_free(m, c, n),
        c.kind is Complete || c.kind is Abandon || c.kind is Defer || c.kind is DeadLetter
            || c.kind is RenewLock,
    ensures
        keeps_places(m, c, apply::command_step(m, c, Seq::empty())),
{
    broadcast use group_places;

    let batch: Seq<OpView> = Seq::empty();
    assert(storage::apply_ops(m, batch) == m);
    nothing_grows(m, c, 0, 0);
    orderly::descriptions_fit();
    match c.kind {
        KindView::Complete { sequence, lock_token } => {
            held_locks_are_stored(m, c, sequence, lock_token);
            if let Ok((found, locked_until, _)) = shared::held_lock(m, c, sequence, lock_token) {
                let (changes, _) = apply::command_step(m, c, batch)->Ok_0;
                let after = storage::apply_ops(m, changes);
                assert(same_elsewhere(m, after, c.namespace, c.entity, sequence));
                vanishing_keeps_places(m, after, c.namespace, c.entity, found);
                one_grows_nothing(m, changes, c, sequence);
            }
        },
        KindView::Abandon { sequence, lock_token, replacement_envelope } => {
            held_locks_are_stored(m, c, sequence, lock_token);
            if let Ok(config) = machine::config_of(m, c) {
                if let Ok((found, locked_until, origin)) = shared::held_lock(
                    m,
                    c,
                    sequence,
                    lock_token,
                ) {
                    if let Ok(record) = shared::with_envelope(config, found, replacement_envelope) {
                        orderly::changed_records_are_orderly(found, record);
                        dead_lettering_keeps_places(
                            m,
                            c,
                            found,
                            record,
                            DeadLetterReasonView::TimeToLiveExpired,
                            "the message exceeded its time to live"@,
                            batch,
                        );
                        dead_lettering_keeps_places(
                            m,
                            c,
                            found,
                            record,
                            DeadLetterReasonView::MaxDeliveryCountExceeded,
                            "the message reached its maximum delivery count"@,
                            batch,
                        );
                        returning_keeps_places(
                            m,
                            c,
                            found,
                            record,
                            locked_until,
                            origin,
                            batch,
                        );
                        if let Ok((changes, _)) = apply::command_step(m, c, batch) {
                            if message::expired(record, c.issued_at)
                                || shared::over_delivery_limit(c, config, record) {
                                moving_grows(m, batch, changes, c, sequence, 0, 0);
                            } else {
                                one_grows_nothing(m, changes, c, sequence);
                            }
                        }
                    }
                }
            }
        },
        KindView::Defer { sequence, lock_token, replacement_envelope } => {
            held_locks_are_stored(m, c, sequence, lock_token);
            if let Ok(config) = machine::config_of(m, c) {
                if let Ok((found, _, _)) = shared::held_lock(m, c, sequence, lock_token) {
                    if let Ok(record) = shared::with_envelope(config, found, replacement_envelope) {
                        let (changes, _) = apply::command_step(m, c, batch)->Ok_0;
                        let after = storage::apply_ops(m, changes);
                        let waiting = RecordView { state: MessageState::Deferred, ..record };
                        orderly::changed_records_are_orderly(found, waiting);
                        assert(same_elsewhere(m, after, c.namespace, c.entity, sequence));
                        changing_keeps_places(
                            m,
                            after,
                            c.namespace,
                            c.entity,
                            found,
                            waiting,
                        );
                        one_grows_nothing(m, changes, c, sequence);
                    }
                }
            }
        },
        KindView::DeadLetter {
            sequence,
            lock_token,
            reason,
            description,
            replacement_envelope,
        } => {
            held_locks_are_stored(m, c, sequence, lock_token);
            if let Ok(config) = machine::config_of(m, c) {
                if let Ok((found, _, _)) = shared::held_lock(m, c, sequence, lock_token) {
                    if let Ok(record) = shared::with_envelope(config, found, replacement_envelope) {
                        orderly::changed_records_are_orderly(found, record);
                        dead_lettering_keeps_places(
                            m,
                            c,
                            found,
                            record,
                            DeadLetterReasonView::Application(reason),
                            description,
                            batch,
                        );
                        if let Ok((changes, _)) = apply::command_step(m, c, batch) {
                            moving_grows(m, batch, changes, c, sequence, 0, 0);
                        }
                    }
                }
            }
        },
        KindView::RenewLock { .. } => {
            renewing_keeps_places(m, c);
        },
        _ => {},
    }
}

// ---- many messages ---------------------------------------------------------

/// The number at the end of an entry.
spec fn number_of(key: Seq<u8>) -> SequenceNumber {
    keys::last_sequence(key)->Some_0
}

/// Whether an entry of an index leads to a message that has not changed since `m`,
/// and whose number is free in the dead-letter queue.
spec fn leads(
    m: Contents,
    now: Contents,
    c: CommandView,
    tag: u8,
    key: Seq<u8>,
    record: RecordView,
) -> bool {
    &&& tag_of(key) == tag
    &&& keys::last_sequence(key) == Some(record.sequence)
    &&& message_in(m, c.namespace, c.entity, record.sequence) == Some(record)
    &&& message_in(now, c.namespace, c.entity, record.sequence) == Some(record)
    &&& marks(c.namespace, c.entity, record, key)
    &&& shadow_is_free(now, c, record.sequence)
}

spec fn leads_somewhere(
    m: Contents,
    now: Contents,
    c: CommandView,
    tag: u8,
    key: Seq<u8>,
) -> bool {
    exists|record: RecordView| leads(m, now, c, tag, key, record)
}

/// Whether the entries of an index lead to so many different messages.
spec fn pending(
    m: Contents,
    now: Contents,
    c: CommandView,
    tag: u8,
    entries: Seq<(Seq<u8>, Seq<u8>)>,
) -> bool {
    &&& forall|i: int|
        0 <= i < entries.len() ==> leads_somewhere(m, now, c, tag, (#[trigger] entries[i]).0)
    &&& forall|i: int, j: int|
        0 <= i < j < entries.len() ==> number_of((#[trigger] entries[i]).0) != number_of(
            (#[trigger] entries[j]).0,
        )
}

/// Whether the numbers of an entity are free in its dead-letter queue.
spec fn shadows_are_free(m: Contents, c: CommandView) -> bool {
    forall|n: SequenceNumber| #[trigger]
        message_in(m, c.namespace, c.entity, n) is Some ==> shadow_is_free(m, c, n)
}

/// The entries below a prefix lead to different messages.
proof fn indexes_lead_to_messages(
    m: Contents,
    c: CommandView,
    tag: u8,
    behind: Seq<u8>,
    limit: usize,
)
    requires
        m.dom().finite(),
        indexed(m),
        proper(c.namespace, c.entity),
        shadows_are_free(m, c),
        tag == keys::TAG_READY || tag == keys::TAG_SESSION_READY || tag == keys::TAG_LOCK || tag
            == keys::TAG_SCHEDULED || tag == keys::TAG_EXPIRY,
    ensures
        ({
            let prefix = keys::scope_key(tag, c.namespace, c.entity) + behind;
            pending(m, m, c, tag, storage::scan(m, prefix, prefix, limit))
        }),
{
    let prefix = keys::scope_key(tag, c.namespace, c.entity) + behind;
    let entries = storage::scan(m, prefix, prefix, limit);
    storage::walk_lists_the_selected_keys(m, prefix, prefix);
    let walked = storage::walk(m, prefix, prefix);
    assert forall|i: int| 0 <= i < entries.len() implies leads_somewhere(
        m,
        m,
        c,
        tag,
        (#[trigger] entries[i]).0,
    ) by {
        let key = walked[i];
        assert(walked.contains(key));
        assert(storage::selected(m, prefix, prefix).contains(key));
        let rest = behind + key.skip(prefix.len() as int);
        assert(key =~= keys::scope_key(tag, c.namespace, c.entity) + rest) by {
            assert(key.subrange(0, prefix.len() as int) =~= prefix);
        }
        assert(tag_of(key) == tag) by {
            reveal(tag_of);
        }
        let (ns, e, n) = entries_have_their_message(m, key);
        order::scopes_read_back(tag, c.namespace, c.entity, rest);
        assert((ns, e) == (c.namespace, c.entity) && keys::last_sequence(key) == Some(n)) by {
            reveal(subject);
        }
        messages_are_well_placed(m, ns, e, n);
        assert(leads(m, m, c, tag, entries[i].0, message_in(m, ns, e, n)->Some_0));
    }
    assert forall|i: int, j: int| 0 <= i < j < entries.len() implies number_of(
        (#[trigger] entries[i]).0,
    ) != number_of((#[trigger] entries[j]).0) by {
        assert(leads_somewhere(m, m, c, tag, entries[i].0));
        assert(leads_somewhere(m, m, c, tag, entries[j].0));
        let one = choose|record: RecordView| leads(m, m, c, tag, entries[i].0, record);
        let other = choose|record: RecordView| leads(m, m, c, tag, entries[j].0, record);
        assert(bytes::lex_lt(walked[i], walked[j]));
        if one.sequence == other.sequence {
            assert(one == other);
            same_kind_is_the_same(c.namespace, c.entity, one, walked[i], walked[j]);
            bytes::lex_asymmetric(walked[i], walked[j]);
        }
    }
}

/// A message has one entry of a kind.
proof fn same_kind_is_the_same(
    namespace: Seq<char>,
    entity: Seq<char>,
    record: RecordView,
    a: Seq<u8>,
    b: Seq<u8>,
)
    requires
        marks(namespace, entity, record, a),
        marks(namespace, entity, record, b),
        tag_of(a) == tag_of(b),
    ensures
        a == b,
{
    broadcast use group_keys;

}

/// The entries behind one that was dealt with still lead to their messages, even
/// if a message has appeared under a number that was free.
proof fn the_rest_leads(
    m: Contents,
    before: Contents,
    after: Contents,
    c: CommandView,
    tag: u8,
    entries: Seq<(Seq<u8>, Seq<u8>)>,
    fresh: SequenceNumber,
)
    requires
        entries.len() > 0,
        proper(c.namespace, c.entity),
        pending(m, before, c, tag, entries),
        fresh == number_of(entries[0].0) || message_in(before, c.namespace, c.entity, fresh)
            is None,
        forall|e: Seq<char>, other: SequenceNumber|
            order::clean(e) && other != number_of(entries[0].0) && other != fresh ==> #[trigger]
                message_in(after, c.namespace, e, other) == message_in(
                before,
                c.namespace,
                e,
                other,
            ),
    ensures
        pending(m, after, c, tag, entries.skip(1)),
{
    let rest = entries.skip(1);
    orderly::internal_paths_are_clean(identifier::dead_letter_path(c.entity));
    assert forall|i: int| 0 <= i < rest.len() implies leads_somewhere(
        m,
        after,
        c,
        tag,
        (#[trigger] rest[i]).0,
    ) by {
        let key = entries[i + 1].0;
        assert(leads_somewhere(m, before, c, tag, key));
        let record = choose|record: RecordView| leads(m, before, c, tag, key, record);
        assert(number_of(entries[0].0) != number_of(entries[i + 1].0));
        assert(leads(m, after, c, tag, rest[i].0, record));
    }
    assert forall|i: int, j: int| 0 <= i < j < rest.len() implies number_of(
        (#[trigger] rest[i]).0,
    ) != number_of((#[trigger] rest[j]).0) by {
        assert(number_of(entries[i + 1].0) != number_of(entries[j + 1].0));
    }
}

proof fn the_rest_is_pending(
    m: Contents,
    batch: Seq<OpView>,
    changes: Seq<OpView>,
    c: CommandView,
    tag: u8,
    entries: Seq<(Seq<u8>, Seq<u8>)>,
)
    requires
        entries.len() > 0,
        proper(c.namespace, c.entity),
        pending(m, storage::apply_ops(m, batch), c, tag, entries),
        moves_number(m, batch, changes, c, number_of(entries[0].0)),
    ensures
        pending(m, storage::apply_ops(m, changes), c, tag, entries.skip(1)),
{
    the_rest_leads(
        m,
        storage::apply_ops(m, batch),
        storage::apply_ops(m, changes),
        c,
        tag,
        entries,
        number_of(entries[0].0),
    );
}

proof fn receiving_keeps_places(
    m: Contents,
    c: CommandView,
    config: QueueConfig,
    mode: ReceiveMode,
    asked: Option<u64>,
    tag: u8,
    ready: Seq<(Seq<u8>, Seq<u8>)>,
    batch: Seq<OpView>,
)
    requires
        indexed(storage::apply_ops(m, batch)),
        proper(c.namespace, c.entity),
        tag == keys::TAG_READY || tag == keys::TAG_SESSION_READY,
        pending(m, storage::apply_ops(m, batch), c, tag, ready),
        grown(m, storage::apply_ops(m, batch), c, 0, 0),
    ensures
        keeps_places(m, c, delivery::receive_from(m, c, config, mode, asked, ready, batch)),
    decreases ready.len(),
{
    if ready.len() > 0 {
        let before = storage::apply_ops(m, batch);
        assert(leads_somewhere(m, before, c, tag, ready[0].0));
        let record = choose|record: RecordView| leads(m, before, c, tag, ready[0].0, record);
        assert(leads(m, before, c, tag, ready[0].0, record));
        messages_are_well_placed(before, c.namespace, c.entity, record.sequence);
        assert(record.state is Ready) by {
            broadcast use group_keys;

        }
        if message::expired(record, c.issued_at) {
            orderly::descriptions_fit();
            dead_lettering_keeps_places(
                m,
                c,
                record,
                record,
                DeadLetterReasonView::TimeToLiveExpired,
                "the message exceeded its time to live"@,
                batch,
            );
            if let Ok(longer) = shared::lifetime_over(c, record, batch) {
                moving_grows(m, batch, longer, c, record.sequence, 0, 0);
                the_rest_is_pending(m, batch, longer, c, tag, ready);
                receiving_keeps_places(m, c, config, mode, asked, tag, ready.skip(1), longer);
            }
        } else {
            handing_out_keeps_places(m, c, config, mode, asked, record, batch);
            if let Ok((changes, _)) = delivery::handed_out(
                m,
                c,
                config,
                mode,
                asked,
                record.sequence,
                record,
                batch,
            ) {
                one_is_a_number(m, batch, changes, c, record.sequence);
                moving_grows(m, batch, changes, c, record.sequence, 0, 0);
            }
        }
    }
}

proof fn undoing_keeps_places(
    m: Contents,
    c: CommandView,
    config: QueueConfig,
    locks: Seq<(Seq<u8>, Seq<u8>)>,
    batch: Seq<OpView>,
    returned: nat,
    dead: nat,
)
    requires
        indexed(storage::apply_ops(m, batch)),
        proper(c.namespace, c.entity),
        pending(m, storage::apply_ops(m, batch), c, keys::TAG_LOCK, locks),
        grown(m, storage::apply_ops(m, batch), c, 0, 0),
    ensures
        keeps_places(m, c, expiry::undo_elapsed(m, c, config, locks, batch, returned, dead)),
    decreases locks.len(),
{
    if locks.len() > 0 {
        let tag = keys::TAG_LOCK;
        let before = storage::apply_ops(m, batch);
        assert(leads_somewhere(m, before, c, tag, locks[0].0));
        let record = choose|record: RecordView| leads(m, before, c, tag, locks[0].0, record);
        assert(leads(m, before, c, tag, locks[0].0, record));
        messages_are_well_placed(before, c.namespace, c.entity, record.sequence);
        assert(record.state is Locked) by {
            broadcast use group_keys;

        }
        if let MessageState::Locked { locked_until, origin, .. } = record.state {
            assert(locks[0].0 == keys::lock_key(
                c.namespace,
                c.entity,
                locked_until,
                record.sequence,
            )) by {
                broadcast use group_keys;

            }
            order::deadlines_read_back(
                keys::lock_prefix_key(c.namespace, c.entity),
                locked_until,
                record.sequence,
            );
            let rest = locks.skip(1);
            orderly::descriptions_fit();
            dead_lettering_keeps_places(
                m,
                c,
                record,
                record,
                DeadLetterReasonView::TimeToLiveExpired,
                "the message exceeded its time to live"@,
                batch,
            );
            dead_lettering_keeps_places(
                m,
                c,
                record,
                record,
                DeadLetterReasonView::MaxDeliveryCountExceeded,
                "the message reached its maximum delivery count"@,
                batch,
            );
            returning_keeps_places(m, c, record, record, locked_until, origin, batch);
            if let Ok(longer) = shared::lifetime_over(c, record, batch) {
                moving_grows(m, batch, longer, c, record.sequence, 0, 0);
                the_rest_is_pending(m, batch, longer, c, tag, locks);
                undoing_keeps_places(m, c, config, rest, longer, returned, dead + 1);
            }
            if let Ok(longer) = shared::deliveries_over(c, record, batch) {
                moving_grows(m, batch, longer, c, record.sequence, 0, 0);
                the_rest_is_pending(m, batch, longer, c, tag, locks);
                undoing_keeps_places(m, c, config, rest, longer, returned, dead + 1);
            }
            if let Ok(longer) = shared::returned(c, record, locked_until, origin, batch) {
                one_is_a_number(m, batch, longer, c, record.sequence);
                moving_grows(m, batch, longer, c, record.sequence, 0, 0);
                the_rest_is_pending(m, batch, longer, c, tag, locks);
                undoing_keeps_places(m, c, config, rest, longer, returned + 1, dead);
            }
        }
    }
}

proof fn ending_keeps_places(
    m: Contents,
    c: CommandView,
    expiring: Seq<(Seq<u8>, Seq<u8>)>,
    batch: Seq<OpView>,
    dead: nat,
)
    requires
        indexed(storage::apply_ops(m, batch)),
        proper(c.namespace, c.entity),
        pending(m, storage::apply_ops(m, batch), c, keys::TAG_EXPIRY, expiring),
        grown(m, storage::apply_ops(m, batch), c, 0, 0),
    ensures
        keeps_places(m, c, expiry::end_elapsed(m, c, expiring, batch, dead)),
    decreases expiring.len(),
{
    if expiring.len() > 0 {
        let tag = keys::TAG_EXPIRY;
        let before = storage::apply_ops(m, batch);
        assert(leads_somewhere(m, before, c, tag, expiring[0].0));
        let record = choose|record: RecordView| leads(m, before, c, tag, expiring[0].0, record);
        assert(leads(m, before, c, tag, expiring[0].0, record));
        messages_are_well_placed(before, c.namespace, c.entity, record.sequence);
        assert(record.state is Ready) by {
            broadcast use group_keys;

        }
        orderly::descriptions_fit();
        dead_lettering_keeps_places(
            m,
            c,
            record,
            record,
            DeadLetterReasonView::TimeToLiveExpired,
            "the message exceeded its time to live"@,
            batch,
        );
        if let Ok(longer) = shared::lifetime_over(c, record, batch) {
            moving_grows(m, batch, longer, c, record.sequence, 0, 0);
            the_rest_is_pending(m, batch, longer, c, tag, expiring);
            ending_keeps_places(m, c, expiring.skip(1), longer, dead + 1);
        }
    }
}

/// Whether the messages from index `i` on are deferred ones that have not changed.
spec fn waiting(
    m: Contents,
    now: Contents,
    c: CommandView,
    records: Seq<RecordView>,
    i: int,
) -> bool {
    &&& forall|j: int|
        #![trigger records[j]]
        i <= j < records.len() ==> {
            &&& message_in(now, c.namespace, c.entity, records[j].sequence) == Some(records[j])
            &&& message_in(m, c.namespace, c.entity, records[j].sequence) == Some(records[j])
            &&& records[j].state is Deferred
            &&& shadow_is_free(now, c, records[j].sequence)
        }
    &&& forall|j: int, k: int|
        i <= j < k < records.len() ==> (#[trigger] records[j]).sequence != (
        #[trigger] records[k]).sequence
}

proof fn resolved_messages_wait(
    m: Contents,
    c: CommandView,
    sequences: Seq<SequenceNumber>,
    expected: Option<Seq<char>>,
    i: int,
    found: Seq<RecordView>,
)
    requires
        indexed(m),
        proper(c.namespace, c.entity),
        found.len() == i,
        0 <= i <= sequences.len(),
        forall|j: int|
            0 <= j < i ==> (#[trigger] found[j]).sequence == sequences[j] && found[j].state
                is Deferred && message_in(m, c.namespace, c.entity, sequences[j]) == Some(
                found[j],
            ),
    ensures
        deferred::resolved(m, c, sequences, expected, i, found) matches Ok(records) ==> {
            &&& records.len() == sequences.len()
            &&& forall|j: int|
                0 <= j < records.len() ==> (#[trigger] records[j]).sequence == sequences[j]
                    && records[j].state is Deferred && message_in(
                    m,
                    c.namespace,
                    c.entity,
                    sequences[j],
                ) == Some(records[j])
        },
    decreases sequences.len() - i,
{
    if i < sequences.len() {
        messages_are_well_placed(m, c.namespace, c.entity, sequences[i]);
        if let Ok(record) = deferred::deferred_message(m, c, sequences[i], expected) {
            resolved_messages_wait(m, c, sequences, expected, i + 1, found.push(record));
        }
    }
}

proof fn deferred_handing_out_keeps_places(
    m: Contents,
    c: CommandView,
    config: QueueConfig,
    mode: ReceiveMode,
    asked: Option<u64>,
    record: RecordView,
    state: deferred::DeferredState,
)
    requires
        indexed(storage::apply_ops(m, state.0)),
        proper(c.namespace, c.entity),
        message_in(storage::apply_ops(m, state.0), c.namespace, c.entity, record.sequence) == Some(
            record,
        ),
        record.state is Deferred,
        shadow_is_free(storage::apply_ops(m, state.0), c, record.sequence),
    ensures
        deferred::deferred_handed_out(c, config, mode, asked, record, state) matches Ok(next)
            ==> moves_number(m, state.0, next.0, c, record.sequence),
{
    broadcast use group_places;

    let n = record.sequence;
    let before = storage::apply_ops(m, state.0);
    messages_are_well_placed(before, c.namespace, c.entity, n);
    orderly::descriptions_fit();
    if let Ok(next) = deferred::deferred_handed_out(c, config, mode, asked, record, state) {
        let after = storage::apply_ops(m, next.0);
        if message::expired(record, c.issued_at) {
            dead_lettering_keeps_places(
                m,
                c,
                record,
                record,
                DeadLetterReasonView::TimeToLiveExpired,
                "the deferred message exceeded its time to live"@,
                state.0,
            );
        } else {
            assert(same_elsewhere(before, after, c.namespace, c.entity, n));
            match mode {
                ReceiveMode::PeekLock => {
                    let locked = RecordView {
                        delivery_count: shared::count_up(record.delivery_count),
                        state: MessageState::Locked {
                            token: LockToken(state.2),
                            locked_until: time::later(
                                c.issued_at,
                                delivery::lock_millis(config, asked),
                            ),
                            origin: DeliveryOrigin::Deferred,
                        },
                        ..record
                    };
                    orderly::changed_records_are_orderly(record, locked);
                    changing_keeps_places(before, after, c.namespace, c.entity, record, locked);
                },
                ReceiveMode::ReceiveAndDelete => {
                    vanishing_keeps_places(before, after, c.namespace, c.entity, record);
                },
            }
            one_is_a_number(m, state.0, next.0, c, n);
        }
    }
}

proof fn all_deferred_keeps_places(
    m: Contents,
    c: CommandView,
    config: QueueConfig,
    mode: ReceiveMode,
    asked: Option<u64>,
    records: Seq<RecordView>,
    i: int,
    state: deferred::DeferredState,
)
    requires
        indexed(storage::apply_ops(m, state.0)),
        proper(c.namespace, c.entity),
        waiting(m, storage::apply_ops(m, state.0), c, records, i),
        grown(m, storage::apply_ops(m, state.0), c, 0, 0),
        0 <= i,
    ensures
        deferred::all_handed_out(c, config, mode, asked, records, i, state) matches Ok(next) ==> {
            &&& indexed(storage::apply_ops(m, next.0))
            &&& grown(m, storage::apply_ops(m, next.0), c, 0, 0)
        },
    decreases records.len() - i,
{
    if i < records.len() {
        let before = storage::apply_ops(m, state.0);
        assert(message_in(before, c.namespace, c.entity, records[i].sequence) == Some(records[i]));
        deferred_handing_out_keeps_places(m, c, config, mode, asked, records[i], state);
        if let Ok(next) = deferred::deferred_handed_out(
            c,
            config,
            mode,
            asked,
            records[i],
            state,
        ) {
            let after = storage::apply_ops(m, next.0);
            orderly::internal_paths_are_clean(identifier::dead_letter_path(c.entity));
            moving_grows(m, state.0, next.0, c, records[i].sequence, 0, 0);
            assert(waiting(m, after, c, records, i + 1)) by {
                assert forall|j: int|
                    #![trigger records[j]]
                    i + 1 <= j < records.len() implies {
                    &&& message_in(after, c.namespace, c.entity, records[j].sequence) == Some(
                        records[j],
                    )
                    &&& message_in(m, c.namespace, c.entity, records[j].sequence) == Some(
                        records[j],
                    )
                    &&& records[j].state is Deferred
                    &&& shadow_is_free(after, c, records[j].sequence)
                } by {
                    assert(records[i].sequence != records[j].sequence);
                    assert(message_in(before, c.namespace, c.entity, records[j].sequence) == Some(
                        records[j],
                    ));
                    assert(shadow_is_free(before, c, records[j].sequence));
                }
            }
            all_deferred_keeps_places(m, c, config, mode, asked, records, i + 1, next);
        }
    }
}

/// Changes to anything but messages and their entries leave both as they were.
proof fn others_do_not_matter(before: Contents, after: Contents)
    requires
        indexed(before),
        forall|key: Seq<u8>|
            #![trigger after.dom().contains(key)]
            #![trigger before.dom().contains(key)]
            is_mark(key) || tag_of(key) == keys::TAG_MESSAGE ==> {
                &&& after.dom().contains(key) == before.dom().contains(key)
                &&& before.dom().contains(key) ==> after[key] == before[key]
            },
    ensures
        indexed(after),
        forall|ns: Seq<char>, e: Seq<char>, n: SequenceNumber| #[trigger]
            message_in(after, ns, e, n) == message_in(before, ns, e, n),
{
    assert forall|ns: Seq<char>, e: Seq<char>, n: SequenceNumber| #[trigger]
        message_in(after, ns, e, n) == message_in(before, ns, e, n) by {
        broadcast use group_keys;

        let key = keys::message_key(ns, e, n);
        assert(after.dom().contains(key) == before.dom().contains(key));
    }
    assert forall|ns: Seq<char>, e: Seq<char>, n: SequenceNumber|
        proper(ns, e) implies #[trigger] well_placed(after, ns, e, n) by {
        messages_are_well_placed(before, ns, e, n);
        if let Some(record) = message_in(after, ns, e, n) {
            assert forall|key: Seq<u8>| #[trigger] marks(
                ns,
                e,
                record,
                key,
            ) implies after.dom().contains(key) by {
                marks_speak_of_their_message(ns, e, record, key);
                assert(before.dom().contains(key));
            }
        }
    }
    assert forall|key: Seq<u8>|
        #![trigger after.dom().contains(key)]
        after.dom().contains(key) && is_mark(key) implies exists|
        ns: Seq<char>,
        e: Seq<char>,
        n: SequenceNumber,
    | #[trigger] accounted(after, key, ns, e, n) by {
        assert(before.dom().contains(key));
        let (ns, e, n) = entries_have_their_message(before, key);
        assert(accounted(after, key, ns, e, n));
    }
    reveal(indexed);
}

/// One more change to anything else.
proof fn one_other_change(m: Contents, ops: Seq<OpView>, op: OpView)
    requires
        indexed(storage::apply_ops(m, ops)),
        ({
            let key = match op {
                OpView::Put { key, .. } => key,
                OpView::Delete { key } => key,
            };
            !is_mark(key) && tag_of(key) != keys::TAG_MESSAGE
        }),
    ensures
        indexed(storage::apply_ops(m, ops.push(op))),
        forall|ns: Seq<char>, e: Seq<char>, n: SequenceNumber| #[trigger]
            message_in(storage::apply_ops(m, ops.push(op)), ns, e, n) == message_in(
                storage::apply_ops(m, ops),
                ns,
                e,
                n,
            ),
{
    history::one_more_change(m, ops, op);
    others_do_not_matter(storage::apply_ops(m, ops), storage::apply_ops(m, ops.push(op)));
}

proof fn receiving_deferred_keeps_places(
    m: Contents,
    c: CommandView,
    config: QueueConfig,
    sequences: Seq<SequenceNumber>,
    mode: ReceiveMode,
    asked: Option<u64>,
    expected: Option<Seq<char>>,
)
    requires
        indexed(m),
        proper(c.namespace, c.entity),
        shadows_are_free(m, c),
        deferred::sequences_fault(sequences) is None,
    ensures
        keeps_places(
            m,
            c,
            deferred::deferred_received(
                m,
                c,
                config,
                sequences,
                mode,
                asked,
                expected,
                Seq::empty(),
            ),
        ),
{
    broadcast use group_keys;

    let batch: Seq<OpView> = Seq::empty();
    assert(storage::apply_ops(m, batch) == m);
    repeats::without_repeat_all_differ(sequences);
    resolved_messages_wait(m, c, sequences, expected, 0, Seq::empty());
    if let Ok(records) = deferred::resolved(m, c, sequences, expected, 0, Seq::empty()) {
        if let Ok(counters) = machine::counters_of(m, c) {
            let state: deferred::DeferredState = (batch, Seq::empty(), counters.next_lock_token);
            nothing_grows(m, c, 0, 0);
            assert(waiting(m, m, c, records, 0)) by {
                assert forall|j: int, k: int| 0 <= j < k < records.len() implies (
                #[trigger] records[j]).sequence != (#[trigger] records[k]).sequence by {
                    assert(sequences[j] != sequences[k]);
                }
                assert forall|j: int|
                    #![trigger records[j]]
                    0 <= j < records.len() implies {
                    &&& message_in(m, c.namespace, c.entity, records[j].sequence) == Some(
                        records[j],
                    )
                    &&& records[j].state is Deferred
                    &&& shadow_is_free(m, c, records[j].sequence)
                } by {
                    assert(records[j].sequence == sequences[j]);
                }
            }
            all_deferred_keeps_places(m, c, config, mode, asked, records, 0, state);
            if let Ok(next) = deferred::all_handed_out(
                c,
                config,
                mode,
                asked,
                records,
                0,
                state,
            ) {
                let put = shared::put(
                    keys::queue_counters_key(c.namespace, c.entity),
                    codec::encoded::<QueueCounters>(
                        QueueCounters { next_lock_token: next.2, ..counters },
                    ),
                );
                one_other_change(m, next.0, put);
                others_grow_nothing(
                    m,
                    storage::apply_ops(m, next.0),
                    storage::apply_ops(m, next.0.push(put)),
                    c,
                    0,
                    0,
                );
            }
        }
    }
}

spec fn is_scheduled_for(
    m: Contents,
    c: CommandView,
    sequence: SequenceNumber,
    at: Timestamp,
) -> bool {
    &&& message_in(m, c.namespace, c.entity, sequence) matches Some(record)
    &&& record.state is Scheduled
    &&& record.scheduled_enqueue_at == Some(at)
}

/// Whether the messages that a cancellation names are scheduled for these times.
spec fn scheduled_for(
    m: Contents,
    c: CommandView,
    sequences: Seq<SequenceNumber>,
    due: Seq<Timestamp>,
) -> bool {
    &&& due.len() <= sequences.len()
    &&& forall|j: int|
        #![trigger due[j]]
        0 <= j < due.len() ==> is_scheduled_for(m, c, sequences[j], due[j])
}

proof fn due_times_are_scheduled(
    m: Contents,
    c: CommandView,
    sequences: Seq<SequenceNumber>,
    i: int,
    found: Seq<Timestamp>,
)
    requires
        found.len() == i,
        0 <= i <= sequences.len(),
        scheduled_for(m, c, sequences, found),
    ensures
        scheduling::due_times(m, c, sequences, i, found) matches Ok(due) ==> due.len()
            == sequences.len() && scheduled_for(m, c, sequences, due),
    decreases sequences.len() - i,
{
    if i < sequences.len() {
        if let Ok(at) = scheduling::due_time(m, c, sequences[i]) {
            let longer = found.push(at);
            assert forall|j: int|
                #![trigger longer[j]]
                0 <= j < longer.len() implies is_scheduled_for(
                m,
                c,
                sequences[j],
                longer[j],
            ) by {
                if j < i {
                    assert(longer[j] == found[j]);
                }
            }
            due_times_are_scheduled(m, c, sequences, i + 1, longer);
        }
    }
}

proof fn cancelling_keeps_places(
    m: Contents,
    c: CommandView,
    sequences: Seq<SequenceNumber>,
    due: Seq<Timestamp>,
    n: int,
)
    requires
        indexed(m),
        proper(c.namespace, c.entity),
        0 <= n <= sequences.len(),
        due.len() == sequences.len(),
        scheduled_for(m, c, sequences, due),
        forall|i: int, j: int| 0 <= i < j < sequences.len() ==> sequences[i] != sequences[j],
    ensures
        ({
            let now = storage::apply_ops(
                m,
                scheduling::removed(c, sequences, due, n, Seq::empty()),
            );
            &&& indexed(now)
            &&& grown(m, now, c, 0, 0)
            &&& forall|j: int|
                #![trigger sequences[j]]
                n <= j < sequences.len() ==> message_in(now, c.namespace, c.entity, sequences[j])
                    == message_in(m, c.namespace, c.entity, sequences[j])
        }),
    decreases n,
{
    broadcast use group_places;

    if n > 0 {
        cancelling_keeps_places(m, c, sequences, due, n - 1);
        let earlier = scheduling::removed(c, sequences, due, n - 1, Seq::empty());
        let before = storage::apply_ops(m, earlier);
        let after = storage::apply_ops(
            m,
            scheduling::removed(c, sequences, due, n, Seq::empty()),
        );
        let sequence = sequences[n - 1];
        let at = due[n - 1];
        let found = message_in(before, c.namespace, c.entity, sequence)->Some_0;
        messages_are_well_placed(before, c.namespace, c.entity, sequence);
        assert(same_elsewhere(before, after, c.namespace, c.entity, sequence));
        vanishing_keeps_places(before, after, c.namespace, c.entity, found);
        let later = scheduling::removed(c, sequences, due, n, Seq::empty());
        one_is_a_number(m, earlier, later, c, sequence);
        moving_grows(m, earlier, later, c, sequence, 0, 0);
        assert forall|j: int|
            #![trigger sequences[j]]
            n <= j < sequences.len() implies message_in(
            after,
            c.namespace,
            c.entity,
            sequences[j],
        ) == message_in(m, c.namespace, c.entity, sequences[j]) by {
            assert(sequences[n - 1] != sequences[j]);
            messages_elsewhere_stay(
                before,
                after,
                c.namespace,
                c.entity,
                sequence,
                c.namespace,
                c.entity,
                sequences[j],
            );
        }
    } else {
        assert(storage::apply_ops(m, Seq::<OpView>::empty()) == m);
        nothing_grows(m, c, 0, 0);
    }
}

/// A message comes to the entity under the next number.
proof fn appearing_grows(
    m: Contents,
    before: Contents,
    after: Contents,
    c: CommandView,
    low: u64,
    k: SequenceNumber,
)
    requires
        grown(m, before, c, low, k.0),
        same_elsewhere(before, after, c.namespace, c.entity, k),
        low <= k.0 < u64::MAX,
        proper(c.namespace, c.entity),
        message_in(m, c.namespace, c.entity, k) is None,
    ensures
        grown(m, after, c, low, (k.0 + 1) as u64),
{
    assert forall|ns: Seq<char>, e: Seq<char>, n: SequenceNumber|
        proper(ns, e) && (#[trigger] message_in(after, ns, e, n)) is Some && message_in(
            m,
            ns,
            e,
            n,
        ) is None implies ns == c.namespace && born(
        m,
        after,
        c,
        low,
        (k.0 + 1) as u64,
        e,
        n,
    ) by {
        if (ns, e, n) != (c.namespace, c.entity, k) {
            messages_elsewhere_stay(before, after, c.namespace, c.entity, k, ns, e, n);
            assert(message_in(before, ns, e, n) is Some);
            if n != k {
                messages_elsewhere_stay(
                    before,
                    after,
                    c.namespace,
                    c.entity,
                    k,
                    c.namespace,
                    c.entity,
                    n,
                );
            }
        }
    }
}

/// More numbers may have been given out than messages have come.
proof fn skipping_grows(m: Contents, now: Contents, c: CommandView, low: u64, next: u64, more: u64)
    requires
        grown(m, now, c, low, next),
        next <= more,
    ensures
        grown(m, now, c, low, more),
{
    assert forall|ns: Seq<char>, e: Seq<char>, n: SequenceNumber|
        proper(ns, e) && (#[trigger] message_in(now, ns, e, n)) is Some && message_in(m, ns, e, n)
            is None implies ns == c.namespace && born(m, now, c, low, more, e, n) by {
        assert(born(m, now, c, low, next, e, n));
    }
}

/// Whether no message of an entity has a number from `next` on.
pub open spec fn unused_from(
    m: Contents,
    namespace: Seq<char>,
    entity: Seq<char>,
    next: u64,
) -> bool {
    forall|n: SequenceNumber| n.0 >= next ==> #[trigger] message_in(m, namespace, entity, n) is None
}

proof fn activating_keeps_places(
    m: Contents,
    c: CommandView,
    low: u64,
    due: Seq<(Seq<u8>, Seq<u8>)>,
    state: scheduling::ActivationState,
)
    requires
        indexed(storage::apply_ops(m, state.0)),
        proper(c.namespace, c.entity),
        pending(m, storage::apply_ops(m, state.0), c, keys::TAG_SCHEDULED, due),
        unused_from(storage::apply_ops(m, state.0), c.namespace, c.entity, state.1),
        unused_from(m, c.namespace, c.entity, low),
        grown(m, storage::apply_ops(m, state.0), c, low, state.1),
        low <= state.1,
        state.1 + due.len() <= u64::MAX,
    ensures
        scheduling::activate_due(m, c, due, state) matches Ok(next) ==> {
            &&& indexed(storage::apply_ops(m, next.0))
            &&& grown(m, storage::apply_ops(m, next.0), c, low, next.1)
            &&& state.1 <= next.1 <= state.1 + due.len()
            &&& next.2 == state.2 ==> next.1 == state.1
            &&& state.2 <= next.2
        },
    decreases due.len(),
{
    broadcast use group_places;

    if due.len() > 0 {
        let tag = keys::TAG_SCHEDULED;
        let before = storage::apply_ops(m, state.0);
        assert(leads_somewhere(m, before, c, tag, due[0].0));
        let record = choose|record: RecordView| leads(m, before, c, tag, due[0].0, record);
        let n = record.sequence;
        messages_are_well_placed(before, c.namespace, c.entity, n);
        assert(record.state is Scheduled);
        let at = record.scheduled_enqueue_at->Some_0;
        assert(due[0].0 == keys::scheduled_key(c.namespace, c.entity, at, n));
        order::deadlines_read_back(keys::scheduled_prefix_key(c.namespace, c.entity), at, n);
        let active = scheduling::active_record(record, at, SequenceNumber(state.1), c.issued_at);
        let left = state.0.push(shared::drop_key(due[0].0)).push(
            shared::drop_key(keys::message_key(c.namespace, c.entity, n)),
        );
        let changes = scheduling::activated_changes(c, due[0].0, n, active, state.0);
        let middle = storage::apply_ops(m, left);
        let after = storage::apply_ops(m, changes);
        assert(same_elsewhere(before, middle, c.namespace, c.entity, n));
        vanishing_keeps_places(before, middle, c.namespace, c.entity, record);
        orderly::changed_records_are_orderly(record, active);
        let k = active.sequence;
        assert(message_in(before, c.namespace, c.entity, k) is None);
        messages_elsewhere_stay(
            before,
            middle,
            c.namespace,
            c.entity,
            n,
            c.namespace,
            c.entity,
            k,
        );
        assert(same_elsewhere(middle, after, c.namespace, c.entity, k));
        stored_messages_are_in(after, c.namespace, c.entity, active);
        appearing_keeps_places(middle, after, c.namespace, c.entity, active);
        assert forall|e: Seq<char>, other: SequenceNumber|
            order::clean(e) && other != n && other != k implies (#[trigger] message_in(
            after,
            c.namespace,
            e,
            other,
        )) == message_in(before, c.namespace, e, other) by {
            messages_elsewhere_stay(
                before,
                middle,
                c.namespace,
                c.entity,
                n,
                c.namespace,
                e,
                other,
            );
            messages_elsewhere_stay(middle, after, c.namespace, c.entity, k, c.namespace, e, other);
        }
        the_rest_leads(m, before, after, c, tag, due, k);
        one_is_a_number(m, state.0, left, c, n);
        moving_grows(m, state.0, left, c, n, low, state.1);
        assert(message_in(m, c.namespace, c.entity, k) is None);
        appearing_grows(m, middle, after, c, low, k);
        assert(unused_from(after, c.namespace, c.entity, queue::bump(state.1))) by {
            assert forall|other: SequenceNumber|
                other.0 >= queue::bump(state.1) implies (#[trigger] message_in(
                after,
                c.namespace,
                c.entity,
                other,
            )) is None by {
                assert(message_in(before, c.namespace, c.entity, other) is None);
            }
        }
        activating_keeps_places(
            m,
            c,
            low,
            due.skip(1),
            (changes, queue::bump(state.1), state.2 + 1),
        );
    }
}

proof fn storing_keeps_places(
    m: Contents,
    c: CommandView,
    low: u64,
    config: QueueConfig,
    inputs: Seq<InputView>,
    stored: Seq<bool>,
    i: int,
    state: send::SendState,
)
    requires
        indexed(storage::apply_ops(m, state.0)),
        proper(c.namespace, c.entity),
        orderly::orderly_inputs(inputs),
        unused_from(storage::apply_ops(m, state.0), c.namespace, c.entity, state.1),
        unused_from(m, c.namespace, c.entity, low),
        grown(m, storage::apply_ops(m, state.0), c, low, state.1),
        low <= state.1,
        0 <= i <= inputs.len(),
        state.1 + (inputs.len() - i) <= u64::MAX,
    ensures
        ({
            let sent = send::stored_from(c, config, inputs, stored, i, state);
            &&& indexed(storage::apply_ops(m, sent.0))
            &&& grown(m, storage::apply_ops(m, sent.0), c, low, sent.1)
            &&& sent.1 == state.1 + (inputs.len() - i)
        }),
    decreases inputs.len() - i,
{
    broadcast use group_places;

    if i < inputs.len() {
        let before = storage::apply_ops(m, state.0);
        let n = SequenceNumber(state.1);
        let lifetime = send::effective_lifetime(
            inputs[i].time_to_live_millis,
            config.default_time_to_live_millis,
        );
        let record = send::new_record(c, inputs[i], n, lifetime);
        orderly::new_records_are_orderly(c, inputs[i], n, lifetime);
        let next = queue::bump(state.1);
        if stored[i] {
            let changes = send::stored_changes(c, record, state.0);
            let after = storage::apply_ops(m, changes);
            assert(message_in(before, c.namespace, c.entity, n) is None);
            assert(same_elsewhere(before, after, c.namespace, c.entity, n));
            stored_messages_are_in(after, c.namespace, c.entity, record);
            appearing_keeps_places(before, after, c.namespace, c.entity, record);
            assert(message_in(m, c.namespace, c.entity, n) is None);
            appearing_grows(m, before, after, c, low, n);
            assert(unused_from(after, c.namespace, c.entity, next)) by {
                assert forall|other: SequenceNumber| other.0 >= next implies (
                #[trigger] message_in(after, c.namespace, c.entity, other)) is None by {
                    messages_elsewhere_stay(
                        before,
                        after,
                        c.namespace,
                        c.entity,
                        n,
                        c.namespace,
                        c.entity,
                        other,
                    );
                    assert(message_in(before, c.namespace, c.entity, other) is None);
                }
            }
            storing_keeps_places(m, c, low, config, inputs, stored, i + 1, (changes, next));
        } else {
            skipping_grows(m, before, c, low, state.1, next);
            storing_keeps_places(m, c, low, config, inputs, stored, i + 1, (state.0, next));
        }
    }
}

/// Whether subscribers are different queues.
spec fn different(subscribers: Seq<topic::Subscriber>) -> bool {
    forall|i: int, j: int|
        0 <= i < j < subscribers.len() ==> (#[trigger] subscribers[i]).path != (
        #[trigger] subscribers[j]).path
}

/// Whether every message that was not there before is one of the copies that
/// subscribers have got, under a number from `low` up to `next`.
spec fn spread(
    m: Contents,
    now: Contents,
    c: CommandView,
    subscribers: Seq<topic::Subscriber>,
    low: u64,
    next: u64,
) -> bool {
    forall|ns: Seq<char>, e: Seq<char>, n: SequenceNumber|
        proper(ns, e) && (#[trigger] message_in(now, ns, e, n)) is Some && message_in(m, ns, e, n)
            is None ==> {
            &&& ns == c.namespace
            &&& low <= n.0 < next
            &&& is_subscriber(subscribers, e)
        }
}

spec fn is_subscriber(subscribers: Seq<topic::Subscriber>, path: Seq<char>) -> bool {
    exists|i: int| 0 <= i < subscribers.len() && (#[trigger] subscribers[i]).path == path
}

/// Whether a message can be published as it stands.
spec fn publishable(input: InputView) -> bool {
    &&& orderly::orderly_input(input)
    &&& input.session_id is None
    &&& input.scheduled_enqueue_at is None
}

proof fn fanning_out_keeps_places(
    m: Contents,
    c: CommandView,
    topic_config: TopicConfig,
    input: InputView,
    n: SequenceNumber,
    properties: crate::domain::rule::PropertiesView,
    subscribers: Seq<topic::Subscriber>,
    i: int,
    state: topic::FanoutState,
    low: u64,
)
    requires
        indexed(storage::apply_ops(m, state.0)),
        spread(m, storage::apply_ops(m, state.0), c, subscribers, low, (n.0 + 1) as u64),
        low <= n.0 < u64::MAX,
        order::clean(c.namespace),
        publishable(input),
        orderly::clean_subscribers(subscribers),
        different(subscribers),
        0 <= i,
        forall|j: int|
            i <= j < subscribers.len() ==> message_in(
                storage::apply_ops(m, state.0),
                c.namespace,
                (#[trigger] subscribers[j]).path,
                n,
            ) is None,
    ensures
        ({
            let after = storage::apply_ops(
                m,
                topic::fan_out(
                    c,
                    topic_config,
                    input,
                    n,
                    properties,
                    subscribers,
                    i,
                    state,
                ).0,
            );
            &&& indexed(after)
            &&& spread(m, after, c, subscribers, low, (n.0 + 1) as u64)
            &&& forall|e: Seq<char>, other: SequenceNumber|
                order::clean(e) && other != n ==> #[trigger] message_in(
                    after,
                    c.namespace,
                    e,
                    other,
                ) == message_in(storage::apply_ops(m, state.0), c.namespace, e, other)
        }),
    decreases subscribers.len() - i,
{
    broadcast use group_places;

    if i < subscribers.len() {
        let path = subscribers[i].path;
        let lifetime = send::effective_lifetime(
            send::effective_lifetime(
                input.time_to_live_millis,
                topic_config.default_time_to_live_millis,
            ),
            subscribers[i].config.default_time_to_live_millis,
        );
        let copy = topic::copy_of(c, input, n, topic_config, subscribers[i].config);
        orderly::new_records_are_orderly(c, input, n, lifetime);
        let before = storage::apply_ops(m, state.0);
        if topic::any_selects(subscribers[i].rules, properties) {
            let changes = topic::copy_changes(c, path, copy, state.0);
            let after = storage::apply_ops(m, changes);
            assert(same_elsewhere(before, after, c.namespace, path, n));
            stored_messages_are_in(after, c.namespace, path, copy);
            appearing_keeps_places(before, after, c.namespace, path, copy);
            assert(spread(m, after, c, subscribers, low, (n.0 + 1) as u64)) by {
                assert forall|ns: Seq<char>, e: Seq<char>, other: SequenceNumber|
                    proper(ns, e) && (#[trigger] message_in(after, ns, e, other)) is Some
                        && message_in(m, ns, e, other) is None implies {
                    &&& ns == c.namespace
                    &&& low <= other.0 < n.0 + 1
                    &&& is_subscriber(subscribers, e)
                } by {
                    if (ns, e, other) != (c.namespace, path, n) {
                        messages_elsewhere_stay(
                            before,
                            after,
                            c.namespace,
                            path,
                            n,
                            ns,
                            e,
                            other,
                        );
                        assert(message_in(before, ns, e, other) is Some);
                    } else {
                        assert(subscribers[i].path == e);
                    }
                }
            }
            assert forall|j: int| i + 1 <= j < subscribers.len() implies message_in(
                after,
                c.namespace,
                (#[trigger] subscribers[j]).path,
                n,
            ) is None by {
                assert(subscribers[i].path != subscribers[j].path);
                messages_elsewhere_stay(
                    before,
                    after,
                    c.namespace,
                    path,
                    n,
                    c.namespace,
                    subscribers[j].path,
                    n,
                );
            }
            fanning_out_keeps_places(
                m,
                c,
                topic_config,
                input,
                n,
                properties,
                subscribers,
                i + 1,
                (changes, state.1.update(i, true)),
                low,
            );
            let last = storage::apply_ops(
                m,
                topic::fan_out(
                    c,
                    topic_config,
                    input,
                    n,
                    properties,
                    subscribers,
                    i,
                    state,
                ).0,
            );
            assert forall|e: Seq<char>, other: SequenceNumber|
                order::clean(e) && other != n implies (#[trigger] message_in(
                last,
                c.namespace,
                e,
                other,
            )) == message_in(before, c.namespace, e, other) by {
                messages_elsewhere_stay(
                    before,
                    after,
                    c.namespace,
                    path,
                    n,
                    c.namespace,
                    e,
                    other,
                );
            }
        } else {
            fanning_out_keeps_places(
                m,
                c,
                topic_config,
                input,
                n,
                properties,
                subscribers,
                i + 1,
                state,
                low,
            );
        }
    }
}

/// Whether the numbers from `next` on are unused in every subscription.
spec fn unused_by_all(
    m: Contents,
    namespace: Seq<char>,
    subscribers: Seq<topic::Subscriber>,
    next: u64,
) -> bool {
    forall|i: int|
        0 <= i < subscribers.len() ==> unused_from(
            m,
            namespace,
            (#[trigger] subscribers[i]).path,
            next,
        )
}

proof fn publishing_from_keeps_places(
    m: Contents,
    c: CommandView,
    topic_config: TopicConfig,
    inputs: Seq<InputView>,
    subscribers: Seq<topic::Subscriber>,
    i: int,
    state: topic::PublishState,
    low: u64,
)
    requires
        indexed(storage::apply_ops(m, state.0.0)),
        order::clean(c.namespace),
        forall|j: int| 0 <= j < inputs.len() ==> publishable(#[trigger] inputs[j]),
        orderly::clean_subscribers(subscribers),
        different(subscribers),
        unused_by_all(storage::apply_ops(m, state.0.0), c.namespace, subscribers, state.1),
        spread(m, storage::apply_ops(m, state.0.0), c, subscribers, low, state.1),
        low <= state.1,
        0 <= i <= inputs.len(),
        state.1 + (inputs.len() - i) <= u64::MAX,
    ensures
        topic::publish_from(c, topic_config, inputs, subscribers, i, state) matches Ok(next) ==> {
            &&& indexed(storage::apply_ops(m, next.0.0))
            &&& spread(m, storage::apply_ops(m, next.0.0), c, subscribers, low, next.1)
            &&& next.1 == state.1 + (inputs.len() - i)
        },
    decreases inputs.len() - i,
{
    if i < inputs.len() {
        if let Ok(properties) = crate::domain::rule::canonical_view(topic::inspected(inputs[i])) {
            let n = SequenceNumber(state.1);
            let before = storage::apply_ops(m, state.0.0);
            assert(spread(m, before, c, subscribers, low, (n.0 + 1) as u64)) by {
                assert forall|ns: Seq<char>, e: Seq<char>, other: SequenceNumber|
                    proper(ns, e) && (#[trigger] message_in(before, ns, e, other)) is Some
                        && message_in(m, ns, e, other) is None implies {
                    &&& ns == c.namespace
                    &&& low <= other.0 < n.0 + 1
                    &&& is_subscriber(subscribers, e)
                } by {
                }
            }
            assert forall|j: int| 0 <= j < subscribers.len() implies message_in(
                before,
                c.namespace,
                (#[trigger] subscribers[j]).path,
                n,
            ) is None by {
                assert(unused_from(before, c.namespace, subscribers[j].path, state.1));
            }
            fanning_out_keeps_places(
                m,
                c,
                topic_config,
                inputs[i],
                n,
                properties,
                subscribers,
                0,
                state.0,
                low,
            );
            let fanned = topic::fan_out(
                c,
                topic_config,
                inputs[i],
                n,
                properties,
                subscribers,
                0,
                state.0,
            );
            let after = storage::apply_ops(m, fanned.0);
            let next = queue::bump(state.1);
            assert(unused_by_all(after, c.namespace, subscribers, next)) by {
                assert forall|j: int| 0 <= j < subscribers.len() implies unused_from(
                    after,
                    c.namespace,
                    (#[trigger] subscribers[j]).path,
                    next,
                ) by {
                    assert(unused_from(before, c.namespace, subscribers[j].path, state.1));
                    assert forall|other: SequenceNumber| other.0 >= next implies (
                    #[trigger] message_in(after, c.namespace, subscribers[j].path, other))
                        is None by {
                        assert(message_in(before, c.namespace, subscribers[j].path, other) is None);
                    }
                }
            }
            publishing_from_keeps_places(
                m,
                c,
                topic_config,
                inputs,
                subscribers,
                i + 1,
                (fanned, next),
                low,
            );
        }
    }
}

proof fn published_messages_are_plain(config: TopicConfig, inputs: Seq<InputView>, i: int)
    requires
        0 <= i <= inputs.len(),
        topic::topic_fault_from(config, inputs, i) is None,
        orderly::orderly_inputs(inputs),
    ensures
        forall|j: int| i <= j < inputs.len() ==> publishable(#[trigger] inputs[j]),
    decreases inputs.len() - i,
{
    if i < inputs.len() {
        published_messages_are_plain(config, inputs, i + 1);
    }
}

proof fn subscribers_follow_paths(
    m: Contents,
    namespace: Seq<char>,
    paths: Seq<Seq<char>>,
    i: int,
    found: Seq<topic::Subscriber>,
)
    requires
        found.len() == i,
        0 <= i <= paths.len(),
        forall|j: int| 0 <= j < i ==> (#[trigger] found[j]).path == paths[j],
    ensures
        topic::subscribers_from(m, namespace, paths, i, found) matches Ok(subscribers) ==> {
            &&& subscribers.len() == paths.len()
            &&& forall|j: int|
                0 <= j < subscribers.len() ==> (#[trigger] subscribers[j]).path == paths[j]
        },
    decreases paths.len() - i,
{
    if i < paths.len() {
        if let Ok(next) = topic::subscriber(m, namespace, paths[i]) {
            subscribers_follow_paths(m, namespace, paths, i + 1, found.push(next));
        }
    }
}

// ---- what does not touch messages ------------------------------------------

/// Whether changes touch neither messages nor their entries.
#[verifier::opaque]
spec fn apart(ops: Seq<OpView>) -> bool {
    forall|i: int|
        0 <= i < ops.len() ==> {
            let key = isolation::touched(#[trigger] ops[i]);
            !is_mark(key) && tag_of(key) != keys::TAG_MESSAGE
        }
}

broadcast proof fn one_more_apart(ops: Seq<OpView>, op: OpView)
    requires
        apart(ops),
        !is_mark(isolation::touched(op)),
        tag_of(isolation::touched(op)) != keys::TAG_MESSAGE,
    ensures
        #[trigger] apart(ops.push(op)),
{
    reveal(apart);
}

broadcast group group_apart {
    group_keys,
    one_more_apart,
}

proof fn nothing_is_apart()
    ensures
        apart(Seq::empty()),
{
    reveal(apart);
}

proof fn changes_apart_do_not_matter(m: Contents, ops: Seq<OpView>)
    requires
        indexed(m),
        apart(ops),
    ensures
        indexed(storage::apply_ops(m, ops)),
        forall|ns: Seq<char>, e: Seq<char>, n: SequenceNumber| #[trigger]
            message_in(storage::apply_ops(m, ops), ns, e, n) == message_in(m, ns, e, n),
    decreases ops.len(),
{
    if ops.len() > 0 {
        let earlier = ops.drop_last();
        assert(apart(earlier) && !is_mark(isolation::touched(ops.last())) && tag_of(
            isolation::touched(ops.last()),
        ) != keys::TAG_MESSAGE) by {
            reveal(apart);
            assert forall|i: int| 0 <= i < earlier.len() implies {
                let key = isolation::touched(#[trigger] earlier[i]);
                !is_mark(key) && tag_of(key) != keys::TAG_MESSAGE
            } by {
                assert(earlier[i] == ops[i]);
            }
        }
        changes_apart_do_not_matter(m, earlier);
        assert(earlier.push(ops.last()) =~= ops);
        one_other_change(m, earlier, ops.last());
    }
}

proof fn judging_is_apart(
    m: Contents,
    c: CommandView,
    config: QueueConfig,
    inputs: Seq<InputView>,
    i: int,
    state: duplicate::HistoryState,
)
    requires
        apart(state.0),
    ensures
        duplicate::all_judged(m, c, config, inputs, i, state) matches Ok(next) ==> apart(next.0),
    decreases inputs.len() - i,
{
    broadcast use group_apart;

    if i < inputs.len() {
        if let Ok(next) = duplicate::judged(m, c, config, inputs, i, state) {
            judging_is_apart(m, c, config, inputs, i + 1, next);
        }
    }
}

proof fn forgetting_is_apart(
    m: Contents,
    c: CommandView,
    expiring: Seq<(Seq<u8>, Seq<u8>)>,
    batch: Seq<OpView>,
    forgotten: nat,
)
    requires
        apart(batch),
        forall|i: int|
            0 <= i < expiring.len() ==> tag_of((#[trigger] expiring[i]).0)
                == keys::TAG_DUPLICATE_EXPIRY,
    ensures
        duplicate::forget_elapsed(m, c, expiring, batch, forgotten) matches Ok((changes, _))
            ==> apart(changes),
    decreases expiring.len(),
{
    broadcast use group_apart;

    if expiring.len() > 0 {
        let rest = expiring.skip(1);
        assert(tag_of(expiring[0].0) == keys::TAG_DUPLICATE_EXPIRY);
        assert forall|i: int| 0 <= i < rest.len() implies tag_of((#[trigger] rest[i]).0)
            == keys::TAG_DUPLICATE_EXPIRY by {
            assert(rest[i] == expiring[i + 1]);
        }
        let prefix = keys::duplicate_expiry_prefix_key(c.namespace, c.entity);
        if let Some((deadline, id)) = keys::deadline_and_text(prefix, expiring[0].0) {
            if let Ok(current) = duplicate::history_at(m, c.namespace, c.entity, id) {
                let looked_up = if current == Some(deadline) {
                    batch.push(
                        shared::drop_key(keys::duplicate_id_key(c.namespace, c.entity, id)),
                    )
                } else {
                    batch
                };
                forgetting_is_apart(
                    m,
                    c,
                    rest,
                    looked_up.push(shared::drop_key(expiring[0].0)),
                    forgotten + 1,
                );
            }
        }
    }
}

proof fn accepting_is_apart(
    m: Contents,
    c: CommandView,
    locked_until: Timestamp,
    start: Seq<u8>,
    n: nat,
    batch: Seq<OpView>,
)
    requires
        apart(batch),
    ensures
        sessions::accept_from(m, c, locked_until, start, n, batch) matches Ok((changes, _))
            ==> apart(changes),
    decreases n,
{
    broadcast use group_apart;

    let prefix = keys::entity_session_ready_prefix_key(c.namespace, c.entity);
    let found = storage::scan(m, prefix, start, 1);
    if n > 0 && found.len() > 0 {
        if let Some(text) = keys::session_after(prefix, found[0].0) {
            if let Ok(id) = identifier::session_id_of(text) {
                accepting_is_apart(
                    m,
                    c,
                    locked_until,
                    keys::after_session_ready_key(c.namespace, c.entity, id),
                    (n - 1) as nat,
                    batch,
                );
            }
        }
    }
}

proof fn releasing_is_apart(
    m: Contents,
    c: CommandView,
    locks: Seq<(Seq<u8>, Seq<u8>)>,
    batch: Seq<OpView>,
    released: nat,
)
    requires
        apart(batch),
    ensures
        sessions::release_elapsed(m, c, locks, batch, released) matches Ok((changes, _)) ==> apart(
            changes,
        ),
    decreases locks.len(),
{
    broadcast use group_apart;

    if locks.len() > 0 {
        let prefix = keys::session_lock_prefix_key(c.namespace, c.entity);
        if let Some((locked_until, text)) = keys::deadline_and_text(prefix, locks[0].0) {
            if let Ok(id) = identifier::session_id_of(text) {
                if let Ok(record) = machine::session_of(m, c, id) {
                    releasing_is_apart(
                        m,
                        c,
                        locks.skip(1),
                        shared::unlocked_session(c, id, record, batch),
                        released + 1,
                    );
                }
            }
        }
    }
}

/// The catalog, the sessions and the history of identifiers have keys of their own.
proof fn other_steps_are_apart(m: Contents, c: CommandView)
    requires
        m.dom().finite(),
        c.kind is CreateQueue || c.kind is CreateTopic || c.kind is CreateSubscription || c.kind
            is CreateRule || c.kind is DeleteRule || c.kind is ListRules || c.kind is Peek || c.kind
            is AcceptSession || c.kind is ReleaseSession || c.kind is RenewSessionLock || c.kind
            is SetSessionState || c.kind is GetSessionState || c.kind is ExpireSessionLocks
            || c.kind is ExpireDuplicateHistory,
    ensures
        apply::command_step(m, c, Seq::empty()) matches Ok((changes, _)) ==> apart(changes),
{
    broadcast use group_apart;

    let batch: Seq<OpView> = Seq::empty();
    nothing_is_apart();
    match c.kind {
        KindView::AcceptSession { session_id, lock_duration_millis } => {
            if let Ok(config) = machine::config_of(m, c) {
                accepting_is_apart(
                    m,
                    c,
                    time::later(
                        c.issued_at,
                        delivery::lock_millis(config, lock_duration_millis),
                    ),
                    keys::entity_session_ready_prefix_key(c.namespace, c.entity),
                    machine::MAX_SESSION_SCAN as nat,
                    batch,
                );
            }
        },
        KindView::ExpireSessionLocks => {
            let prefix = keys::session_lock_prefix_key(c.namespace, c.entity);
            releasing_is_apart(
                m,
                c,
                storage::scan(m, prefix, prefix, TIMER_SCAN_LIMIT),
                batch,
                0,
            );
        },
        KindView::ExpireDuplicateHistory => {
            let prefix = keys::duplicate_expiry_prefix_key(c.namespace, c.entity);
            let expiring = storage::scan(m, prefix, prefix, TIMER_SCAN_LIMIT);
            storage::walk_lists_the_selected_keys(m, prefix, prefix);
            let walked = storage::walk(m, prefix, prefix);
            assert forall|i: int| 0 <= i < expiring.len() implies tag_of((#[trigger] expiring[i]).0)
                == keys::TAG_DUPLICATE_EXPIRY by {
                let key = walked[i];
                assert(walked.contains(key));
                assert(storage::selected(m, prefix, prefix).contains(key));
                assert(key.subrange(0, prefix.len() as int)[0] == prefix[0]);
                reveal(tag_of);
            }
            forgetting_is_apart(m, c, expiring, batch, 0);
        },
        _ => {},
    }
}

// ---- whole commands --------------------------------------------------------

/// Whether the numbers from the next one on are free in the entity that a command
/// names and in the subscriptions below it, and there are enough of them.
pub open spec fn next_numbers_are_free(m: Contents, c: CommandView) -> bool {
    let next = machine::next_number(m, c.namespace, c.entity);
    &&& unused_from(m, c.namespace, c.entity, next)
    &&& topic::subscriptions_of(
        m,
        c.namespace,
        c.entity,
        (MAX_TOPIC_SUBSCRIPTIONS + 1) as usize,
    ) matches Ok(paths) ==> {
        &&& forall|i: int|
            0 <= i < paths.len() ==> unused_from(m, c.namespace, #[trigger] paths[i], next)
        &&& forall|i: int, j: int| 0 <= i < j < paths.len() ==> paths[i] != paths[j]
    }
    &&& next + numbers_taken(c) <= u64::MAX
}

/// Whether the numbers that a command may give out are free, and those of its
/// messages in the dead-letter queue.
pub open spec fn numbers_are_free(m: Contents, c: CommandView) -> bool {
    &&& forall|n: SequenceNumber| #[trigger]
        message_in(m, c.namespace, c.entity, n) is Some ==> (machine::shadow_of(
            c.entity,
        ) matches Ok(shadow) ==> message_in(m, c.namespace, shadow, n) is None)
    &&& gives_numbers(m, c.namespace, c.entity) ==> next_numbers_are_free(m, c)
}

/// Whether an entity gives out numbers of its own: it is neither a dead-letter queue
/// nor a subscription.
pub open spec fn gives_numbers(m: Contents, namespace: Seq<char>, entity: Seq<char>) -> bool {
    &&& !identifier::names_dead_letter_queue(entity)
    &&& !topic::is_subscription(m, namespace, entity)
}

/// A topic gives out numbers of its own.
pub proof fn topics_give_numbers(m: Contents, namespace: Seq<char>, topic: Seq<char>)
    requires
        orderly::plain(topic),
    ensures
        gives_numbers(m, namespace, topic),
{
    if topic::is_subscription(m, namespace, topic) {
        let above = choose|above: Seq<char>|
            topic::is_subscription_of(m, namespace, above, topic);
        let name = named_below(m, namespace, above, topic);
        identifier::subscription_paths_are_known(above, name);
    }
}

/// The name of a subscription.
pub proof fn named_below(
    m: Contents,
    namespace: Seq<char>,
    topic: Seq<char>,
    path: Seq<char>,
) -> (name: Seq<char>)
    requires
        topic::is_subscription_of(m, namespace, topic, path),
    ensures
        orderly::is_name(name),
        path == identifier::subscription_path(topic, name),
        m.dom().contains(keys::topic_subscription_key(namespace, topic, name)),
{
    choose|name: Seq<char>|
        #![trigger identifier::subscription_path(topic, name)]
        {
            &&& orderly::is_name(name)
            &&& path == identifier::subscription_path(topic, name)
            &&& m.dom().contains(keys::topic_subscription_key(namespace, topic, name))
        }
}

/// Whether messages are scheduled only in queues that give out numbers of their own.
#[verifier::opaque]
pub open spec fn schedules_stand_in_queues(m: Contents) -> bool {
    forall|ns: Seq<char>, e: Seq<char>, at: Timestamp, n: SequenceNumber|
        proper(ns, e) && m.dom().contains(#[trigger] keys::scheduled_key(ns, e, at, n))
            ==> gives_numbers(m, ns, e) && m.dom().contains(keys::queue_config_key(ns, e))
}

/// How many numbers a command may give out.
pub open spec fn numbers_taken(c: CommandView) -> int {
    match c.kind {
        KindView::Send { .. } => 1,
        KindView::SendBatch { messages } => messages.len() as int,
        KindView::ActivateScheduled => TIMER_SCAN_LIMIT as int,
        _ => 0,
    }
}

/// Whether a message comes with a command: to the queue it names or to a
/// subscription below the topic it names, under a number that was given out for it,
/// or out of the entity it names to the dead-letter queue of that.
pub open spec fn arrives(
    m: Contents,
    now: Contents,
    c: CommandView,
    entity: Seq<char>,
    n: SequenceNumber,
) -> bool {
    ||| {
        &&& gives_numbers(m, c.namespace, c.entity)
        &&& entity == c.entity || topic::is_subscription_of(m, c.namespace, c.entity, entity)
        &&& m.dom().contains(keys::queue_config_key(c.namespace, entity))
        &&& machine::next_number(m, c.namespace, c.entity) <= n.0 < machine::next_number(
            now,
            c.namespace,
            c.entity,
        )
    }
    ||| {
        &&& machine::shadow_of(c.entity) == Ok::<Seq<char>, ErrorView>(entity)
        &&& message_in(m, c.namespace, c.entity, n) is Some
        &&& message_in(now, c.namespace, c.entity, n) is None
    }
}

/// Whether every message that was not there before has come so.
pub open spec fn arrivals(m: Contents, now: Contents, c: CommandView) -> bool {
    forall|ns: Seq<char>, e: Seq<char>, n: SequenceNumber|
        proper(ns, e) && (#[trigger] message_in(now, ns, e, n)) is Some && message_in(m, ns, e, n)
            is None ==> ns == c.namespace && arrives(m, now, c, e, n)
}

/// Whether the changes of a step leave everything where it belongs, and bring what
/// they may.
spec fn accounts(m: Contents, c: CommandView, changes: Seq<OpView>) -> bool {
    &&& indexed(storage::apply_ops(m, changes))
    &&& arrivals(m, storage::apply_ops(m, changes), c)
}

/// Storing the counters brings the numbers to account.
proof fn counters_are_stored(
    m: Contents,
    c: CommandView,
    changes: Seq<OpView>,
    counters: QueueCounters,
)
    requires
        indexed(storage::apply_ops(m, changes)),
    ensures
        ({
            let put = shared::put(
                keys::queue_counters_key(c.namespace, c.entity),
                codec::encoded::<QueueCounters>(counters),
            );
            let now = storage::apply_ops(m, changes.push(put));
            &&& indexed(now)
            &&& machine::next_number(now, c.namespace, c.entity) == counters.next_sequence
            &&& forall|ns: Seq<char>, e: Seq<char>, n: SequenceNumber| #[trigger]
                message_in(now, ns, e, n) == message_in(
                    storage::apply_ops(m, changes),
                    ns,
                    e,
                    n,
                )
        }),
{
    broadcast use group_keys;

    let put = shared::put(
        keys::queue_counters_key(c.namespace, c.entity),
        codec::encoded::<QueueCounters>(counters),
    );
    one_other_change(m, changes, put);
    history::one_more_change(m, changes, put);
    codec::stored_values_read_back::<QueueCounters>(counters);
}

/// What has come to the entity has arrived there.
proof fn births_are_arrivals(m: Contents, now: Contents, c: CommandView, low: u64, next: u64)
    requires
        grown(m, now, c, low, next),
        low >= next || {
            &&& gives_numbers(m, c.namespace, c.entity)
            &&& m.dom().contains(keys::queue_config_key(c.namespace, c.entity))
            &&& low == machine::next_number(m, c.namespace, c.entity)
            &&& next == machine::next_number(now, c.namespace, c.entity)
        },
    ensures
        arrivals(m, now, c),
{
    assert forall|ns: Seq<char>, e: Seq<char>, n: SequenceNumber|
        proper(ns, e) && (#[trigger] message_in(now, ns, e, n)) is Some && message_in(m, ns, e, n)
            is None implies ns == c.namespace && arrives(m, now, c, e, n) by {
        assert(born(m, now, c, low, next, e, n));
    }
}

proof fn persisting_keeps_places(m: Contents, c: CommandView, inputs: Seq<InputView>)
    requires
        indexed(m),
        proper(c.namespace, c.entity),
        orderly::orderly_inputs(inputs),
        numbers_are_free(m, c),
        inputs.len() == numbers_taken(c),
    ensures
        send::persisted(m, c, inputs, Seq::empty()) matches Ok((changes, _)) ==> accounts(
            m,
            c,
            changes,
        ),
{
    broadcast use group_keys;

    let batch: Seq<OpView> = Seq::empty();
    nothing_is_apart();
    if gives_numbers(m, c.namespace, c.entity) && machine::config_of(m, c) is Ok {
        let config = machine::config_of(m, c)->Ok_0;
        judging_is_apart(m, c, config, inputs, 0, (batch, Seq::empty()));
        if let Ok((staged, stored)) = duplicate::history(m, c, config, inputs, batch) {
            assert(apart(staged));
            changes_apart_do_not_matter(m, staged);
            if let Ok(counters) = machine::counters_of(m, c) {
                let now = storage::apply_ops(m, staged);
                assert(unused_from(now, c.namespace, c.entity, counters.next_sequence)) by {
                    assert forall|n: SequenceNumber|
                        n.0 >= counters.next_sequence implies (#[trigger] message_in(
                        now,
                        c.namespace,
                        c.entity,
                        n,
                    )) is None by {
                        assert(message_in(m, c.namespace, c.entity, n) is None);
                    }
                }
                nothing_grows(m, c, counters.next_sequence, counters.next_sequence);
                others_grow_nothing(
                    m,
                    m,
                    now,
                    c,
                    counters.next_sequence,
                    counters.next_sequence,
                );
                storing_keeps_places(
                    m,
                    c,
                    counters.next_sequence,
                    config,
                    inputs,
                    stored,
                    0,
                    (staged, counters.next_sequence),
                );
                let sent = send::stored_from(
                    c,
                    config,
                    inputs,
                    stored,
                    0,
                    (staged, counters.next_sequence),
                );
                let after = QueueCounters { next_sequence: sent.1, ..counters };
                counters_are_stored(m, c, sent.0, after);
                let put = shared::put(
                    keys::queue_counters_key(c.namespace, c.entity),
                    codec::encoded::<QueueCounters>(after),
                );
                others_grow_nothing(
                    m,
                    storage::apply_ops(m, sent.0),
                    storage::apply_ops(m, sent.0.push(put)),
                    c,
                    counters.next_sequence,
                    sent.1,
                );
                births_are_arrivals(
                    m,
                    storage::apply_ops(m, sent.0.push(put)),
                    c,
                    counters.next_sequence,
                    sent.1,
                );
            }
        }
    }
}

pub(crate) proof fn paths_stand_below(m: Contents, c: CommandView, limit: usize)
    requires
        m.dom().finite(),
        orderly::orderly(m),
        proper(c.namespace, c.entity),
    ensures
        topic::subscriptions_of(m, c.namespace, c.entity, limit) matches Ok(paths) ==> forall|
            j: int,
        | 0 <= j < paths.len() ==> topic::is_subscription_of(
            m,
            c.namespace,
            c.entity,
            #[trigger] paths[j],
        ),
{
    orderly::subscriptions_stand_below_their_topic(m, c.namespace, c.entity, limit);
    if let Ok(paths) = topic::subscriptions_of(m, c.namespace, c.entity, limit) {
        let prefix = keys::topic_subscription_prefix_key(c.namespace, c.entity);
        let entries = storage::scan(m, prefix, prefix, limit);
        storage::walk_lists_the_selected_keys(m, prefix, prefix);
        let walked = storage::walk(m, prefix, prefix);
        assert forall|j: int| 0 <= j < paths.len() implies topic::is_subscription_of(
            m,
            c.namespace,
            c.entity,
            #[trigger] paths[j],
        ) by {
            let key = entries[j].0;
            assert(walked.contains(walked[j]));
            assert(storage::selected(m, prefix, prefix).contains(key));
            let path = paths[j];
            assert(orderly::stands_somewhere_below(key, path, c.namespace, c.entity));
            let name = choose|name: Seq<char>|
                orderly::stands_below(key, path, c.namespace, c.entity, name);
            assert(path == identifier::subscription_path(c.entity, name));
        }
    }
}

proof fn subscribers_have_queues(
    m: Contents,
    namespace: Seq<char>,
    paths: Seq<Seq<char>>,
    i: int,
    found: Seq<topic::Subscriber>,
    j: int,
)
    requires
        0 <= i <= j < paths.len(),
        topic::subscribers_from(m, namespace, paths, i, found) is Ok,
    ensures
        m.dom().contains(keys::queue_config_key(namespace, paths[j])),
    decreases paths.len() - i,
{
    let next = topic::subscriber(m, namespace, paths[i])->Ok_0;
    if i < j {
        subscribers_have_queues(m, namespace, paths, i + 1, found.push(next), j);
    }
}

/// The copies that subscribers have got have arrived there.
proof fn copies_are_arrivals(
    m: Contents,
    before: Contents,
    now: Contents,
    c: CommandView,
    paths: Seq<Seq<char>>,
    subscribers: Seq<topic::Subscriber>,
    low: u64,
    next: u64,
)
    requires
        spread(m, before, c, subscribers, low, next),
        forall|ns: Seq<char>, e: Seq<char>, n: SequenceNumber| #[trigger]
            message_in(now, ns, e, n) == message_in(before, ns, e, n),
        gives_numbers(m, c.namespace, c.entity),
        low == machine::next_number(m, c.namespace, c.entity),
        next == machine::next_number(now, c.namespace, c.entity),
        subscribers.len() == paths.len(),
        forall|j: int| 0 <= j < subscribers.len() ==> (#[trigger] subscribers[j]).path == paths[j],
        forall|j: int|
            0 <= j < paths.len() ==> topic::is_subscription_of(
                m,
                c.namespace,
                c.entity,
                #[trigger] paths[j],
            ),
        topic::subscribers_from(m, c.namespace, paths, 0, Seq::empty()) is Ok,
    ensures
        arrivals(m, now, c),
{
    assert forall|ns: Seq<char>, e: Seq<char>, n: SequenceNumber|
        proper(ns, e) && (#[trigger] message_in(now, ns, e, n)) is Some && message_in(m, ns, e, n)
            is None implies ns == c.namespace && arrives(m, now, c, e, n) by {
        assert(message_in(before, ns, e, n) is Some);
        assert(is_subscriber(subscribers, e));
        let j = choose|j: int|
            0 <= j < subscribers.len() && (#[trigger] subscribers[j]).path == e;
        assert(topic::is_subscription_of(m, c.namespace, c.entity, paths[j]));
        subscribers_have_queues(m, c.namespace, paths, 0, Seq::empty(), j);
    }
}

proof fn publishing_keeps_places(m: Contents, c: CommandView, inputs: Seq<InputView>)
    requires
        m.dom().finite(),
        indexed(m),
        orderly::orderly(m),
        proper(c.namespace, c.entity),
        orderly::orderly_inputs(inputs),
        numbers_are_free(m, c),
        inputs.len() == numbers_taken(c),
    ensures
        topic::publish_step(m, c, inputs, Seq::empty()) matches Ok((changes, _)) ==> accounts(
            m,
            c,
            changes,
        ),
{
    broadcast use group_keys;

    let batch: Seq<OpView> = Seq::empty();
    assert(storage::apply_ops(m, batch) == m);
    let limit = (MAX_TOPIC_SUBSCRIPTIONS + 1) as usize;
    orderly::subscriptions_stand_below_their_topic(m, c.namespace, c.entity, limit);
    if let Ok(topic_config) = topic::topic_of(m, c) {
        orderly::topics_are_plain(m, c.namespace, c.entity);
        topics_give_numbers(m, c.namespace, c.entity);
        if topic::topic_fault_from(topic_config, inputs, 0) is None {
            published_messages_are_plain(topic_config, inputs, 0);
            if let Ok(paths) = topic::subscriptions_of(m, c.namespace, c.entity, limit) {
                paths_stand_below(m, c, limit);
                orderly::subscribers_are_clean(m, c.namespace, paths, 0, Seq::empty());
                subscribers_follow_paths(m, c.namespace, paths, 0, Seq::empty());
                if let Ok(subscribers) = topic::subscribers_from(
                    m,
                    c.namespace,
                    paths,
                    0,
                    Seq::empty(),
                ) {
                    if let Ok(counters) = machine::counters_of(m, c) {
                        assert(different(subscribers)) by {
                            assert forall|i: int, j: int| 0 <= i < j < subscribers.len() implies (
                            #[trigger] subscribers[i]).path != (#[trigger] subscribers[j]).path by {
                                assert(paths[i] != paths[j]);
                            }
                        }
                        assert(unused_by_all(
                            m,
                            c.namespace,
                            subscribers,
                            counters.next_sequence,
                        )) by {
                            assert forall|i: int| 0 <= i < subscribers.len() implies unused_from(
                                m,
                                c.namespace,
                                (#[trigger] subscribers[i]).path,
                                counters.next_sequence,
                            ) by {
                                assert(unused_from(
                                    m,
                                    c.namespace,
                                    paths[i],
                                    counters.next_sequence,
                                ));
                            }
                        }
                        let state: topic::PublishState = (
                            (batch, Seq::new(paths.len(), |i: int| false)),
                            counters.next_sequence,
                        );
                        publishing_from_keeps_places(
                            m,
                            c,
                            topic_config,
                            inputs,
                            subscribers,
                            0,
                            state,
                            counters.next_sequence,
                        );
                        if let Ok(next) = topic::publish_from(
                            c,
                            topic_config,
                            inputs,
                            subscribers,
                            0,
                            state,
                        ) {
                            let after = QueueCounters { next_sequence: next.1, ..counters };
                            counters_are_stored(m, c, next.0.0, after);
                            copies_are_arrivals(
                                m,
                                storage::apply_ops(m, next.0.0),
                                storage::apply_ops(
                                    m,
                                    next.0.0.push(
                                        shared::put(
                                            keys::queue_counters_key(c.namespace, c.entity),
                                            codec::encoded::<QueueCounters>(after),
                                        ),
                                    ),
                                ),
                                c,
                                paths,
                                subscribers,
                                counters.next_sequence,
                                next.1,
                            );
                        }
                    }
                }
            }
        }
    }
}

proof fn sending_keeps_places(m: Contents, c: CommandView)
    requires
        m.dom().finite(),
        indexed(m),
        orderly::orderly(m),
        orderly::orderly_command(c),
        numbers_are_free(m, c),
        c.kind is Send || c.kind is SendBatch,
    ensures
        apply::command_step(m, c, Seq::empty()) matches Ok((changes, _)) ==> accounts(
            m,
            c,
            changes,
        ),
{
    match c.kind {
        KindView::Send {
            message_id,
            body,
            time_to_live_millis,
            session_id,
            scheduled_enqueue_at,
            envelope,
        } => {
            let input = InputView {
                message_id,
                body,
                time_to_live_millis,
                session_id,
                scheduled_enqueue_at,
                envelope,
            };
            publishing_keeps_places(m, c, seq![input]);
            persisting_keeps_places(m, c, seq![input]);
        },
        KindView::SendBatch { messages } => {
            publishing_keeps_places(m, c, messages);
            persisting_keeps_places(m, c, messages);
        },
        _ => {},
    }
}

proof fn sweeps_keep_places(m: Contents, c: CommandView)
    requires
        m.dom().finite(),
        indexed(m),
        proper(c.namespace, c.entity),
        numbers_are_free(m, c),
        orderly::orderly(m),
        schedules_stand_in_queues(m),
        c.kind is ExpireLocks || c.kind is ExpireMessages || c.kind is ActivateScheduled || c.kind
            is CancelScheduled,
    ensures
        apply::command_step(m, c, Seq::empty()) matches Ok((changes, _)) ==> accounts(
            m,
            c,
            changes,
        ),
{
    let batch: Seq<OpView> = Seq::empty();
    let nothing: Seq<u8> = Seq::empty();
    assert(storage::apply_ops(m, batch) == m);
    assert(shadows_are_free(m, c));
    nothing_grows(m, c, 0, 0);
    let step = apply::command_step(m, c, batch);
    match c.kind {
        KindView::ExpireLocks => {
            if let Ok(config) = machine::config_of(m, c) {
                let prefix = keys::lock_prefix_key(c.namespace, c.entity);
                assert(prefix + nothing =~= prefix);
                indexes_lead_to_messages(m, c, keys::TAG_LOCK, nothing, TIMER_SCAN_LIMIT);
                let locks = storage::scan(m, prefix, prefix, TIMER_SCAN_LIMIT);
                undoing_keeps_places(m, c, config, locks, batch, 0, 0);
                if let Ok((changes, _)) = step {
                    births_are_arrivals(m, storage::apply_ops(m, changes), c, 0, 0);
                }
            }
        },
        KindView::ExpireMessages => {
            let prefix = keys::expiry_prefix_key(c.namespace, c.entity);
            assert(prefix + nothing =~= prefix);
            indexes_lead_to_messages(m, c, keys::TAG_EXPIRY, nothing, TIMER_SCAN_LIMIT);
            ending_keeps_places(m, c, storage::scan(m, prefix, prefix, TIMER_SCAN_LIMIT), batch, 0);
            if let Ok((changes, _)) = step {
                births_are_arrivals(m, storage::apply_ops(m, changes), c, 0, 0);
            }
        },
        KindView::ActivateScheduled => {
            if let Ok(counters) = machine::counters_of(m, c) {
                let prefix = keys::scheduled_prefix_key(c.namespace, c.entity);
                assert(prefix + nothing =~= prefix);
                indexes_lead_to_messages(m, c, keys::TAG_SCHEDULED, nothing, TIMER_SCAN_LIMIT);
                let due = storage::scan(m, prefix, prefix, TIMER_SCAN_LIMIT);
                let state: scheduling::ActivationState = (batch, counters.next_sequence, 0);
                let low = counters.next_sequence;
                nothing_grows(m, c, low, low);
                if due.len() > 0 {
                    orderly::schedules_stand_under_their_queue(
                        m,
                        c.namespace,
                        c.entity,
                        TIMER_SCAN_LIMIT,
                    );
                    reveal(schedules_stand_in_queues);
                    activating_keeps_places(m, c, low, due, state);
                }
                if let Ok(next) = scheduling::activate_due(m, c, due, state) {
                    if next.2 > 0 {
                        let after = QueueCounters { next_sequence: next.1, ..counters };
                        counters_are_stored(m, c, next.0, after);
                        let now = storage::apply_ops(
                            m,
                            next.0.push(
                                shared::put(
                                    keys::queue_counters_key(c.namespace, c.entity),
                                    codec::encoded::<QueueCounters>(after),
                                ),
                            ),
                        );
                        others_grow_nothing(m, storage::apply_ops(m, next.0), now, c, low, next.1);
                        births_are_arrivals(m, now, c, low, next.1);
                    } else {
                        births_are_arrivals(m, storage::apply_ops(m, next.0), c, low, next.1);
                    }
                }
            }
        },
        KindView::CancelScheduled { sequences } => {
            repeats::without_repeat_all_differ(sequences);
            due_times_are_scheduled(m, c, sequences, 0, Seq::empty());
            if scheduling::cancellation_fault(sequences) is None {
                if let Ok(due) = scheduling::due_times(m, c, sequences, 0, Seq::empty()) {
                    cancelling_keeps_places(m, c, sequences, due, sequences.len() as int);
                    if let Ok((changes, _)) = step {
                        births_are_arrivals(m, storage::apply_ops(m, changes), c, 0, 0);
                    }
                }
            }
        },
        _ => {},
    }
}

proof fn deliveries_keep_places(m: Contents, c: CommandView)
    requires
        m.dom().finite(),
        indexed(m),
        proper(c.namespace, c.entity),
        numbers_are_free(m, c),
        c.kind is Receive || c.kind is ReceiveDeferred,
    ensures
        keeps_places(m, c, apply::command_step(m, c, Seq::empty())),
{
    let batch: Seq<OpView> = Seq::empty();
    assert(storage::apply_ops(m, batch) == m);
    assert(shadows_are_free(m, c));
    nothing_grows(m, c, 0, 0);
    match c.kind {
        KindView::Receive { mode, lock_duration_millis, session } => {
            if let Ok(config) = delivery::receivable(m, c) {
                match session {
                    Some(hold) => {
                        let behind = bytes::utf8(hold.session_id) + seq![SEPARATOR];
                        let prefix = keys::session_ready_prefix_key(
                            c.namespace,
                            c.entity,
                            hold.session_id,
                        );
                        assert(prefix =~= keys::scope_key(
                            keys::TAG_SESSION_READY,
                            c.namespace,
                            c.entity,
                        ) + behind);
                        indexes_lead_to_messages(
                            m,
                            c,
                            keys::TAG_SESSION_READY,
                            behind,
                            MAX_RECEIVE_SCAN,
                        );
                        receiving_keeps_places(
                            m,
                            c,
                            config,
                            mode,
                            lock_duration_millis,
                            keys::TAG_SESSION_READY,
                            storage::scan(m, prefix, prefix, MAX_RECEIVE_SCAN),
                            batch,
                        );
                    },
                    None => {
                        let behind: Seq<u8> = Seq::empty();
                        let prefix = keys::ready_prefix_key(c.namespace, c.entity);
                        assert(prefix + behind =~= prefix);
                        indexes_lead_to_messages(
                            m,
                            c,
                            keys::TAG_READY,
                            behind,
                            MAX_RECEIVE_SCAN,
                        );
                        receiving_keeps_places(
                            m,
                            c,
                            config,
                            mode,
                            lock_duration_millis,
                            keys::TAG_READY,
                            storage::scan(m, prefix, prefix, MAX_RECEIVE_SCAN),
                            batch,
                        );
                    },
                }
            }
        },
        KindView::ReceiveDeferred { sequences, mode, lock_duration_millis, session } => {
            if deferred::sequences_fault(sequences) is None {
                if let Ok(config) = machine::config_of(m, c) {
                    let expected = match session {
                        Some(hold) => Some(hold.session_id),
                        None => None,
                    };
                    receiving_deferred_keeps_places(
                        m,
                        c,
                        config,
                        sequences,
                        mode,
                        lock_duration_millis,
                        expected,
                    );
                }
            }
        },
        _ => {},
    }
}

/// A store in which nothing is stored has everything where it belongs.
pub proof fn stores_begin_indexed()
    ensures
        indexed(Map::empty()),
{
    reveal(indexed);
}

/// Whatever a command does, afterwards every message stands in the index of its
/// state and no entry of an index leads nowhere, provided that the numbers it may
/// give out are free. Every message that was not there before has come to the queue
/// that the command names, to a subscription below it, or to its dead-letter queue.
pub proof fn commands_keep_messages_in_place(m: Contents, c: CommandView)
    requires
        m.dom().finite(),
        orderly::orderly(m),
        indexed(m),
        schedules_stand_in_queues(m),
        orderly::orderly_command(c),
        numbers_are_free(m, c),
    ensures
        indexed(apply::applied(m, c).1),
        arrivals(m, apply::applied(m, c).1, c),
{
    let batch: Seq<OpView> = Seq::empty();
    let step = apply::command_step(m, c, batch);
    match c.kind {
        KindView::Send { .. } | KindView::SendBatch { .. } => {
            sending_keeps_places(m, c);
        },
        KindView::Receive { .. } | KindView::ReceiveDeferred { .. } => {
            deliveries_keep_places(m, c);
            if let Ok((changes, _)) = step {
                births_are_arrivals(m, storage::apply_ops(m, changes), c, 0, 0);
            }
        },
        KindView::Complete { .. } | KindView::Abandon { .. } | KindView::Defer { .. }
        | KindView::DeadLetter { .. } | KindView::RenewLock { .. } => {
            settling_keeps_places(m, c);
            if let Ok((changes, _)) = step {
                births_are_arrivals(m, storage::apply_ops(m, changes), c, 0, 0);
            }
        },
        KindView::ExpireLocks | KindView::ExpireMessages | KindView::ActivateScheduled
        | KindView::CancelScheduled { .. } => {
            sweeps_keep_places(m, c);
        },
        _ => {
            other_steps_are_apart(m, c);
            if let Ok((changes, _)) = apply::command_step(m, c, batch) {
                changes_apart_do_not_matter(m, changes);
            }
        },
    }
    if let Ok((changes, _)) = step {
        let clock = apply::clock_change(c.issued_at);
        let before = storage::apply_ops(m, changes);
        let now = storage::apply_ops(m, changes.push(clock));
        assert(!is_mark(keys::clock_key()) && tag_of(keys::clock_key()) != keys::TAG_MESSAGE) by {
            reveal(tag_of);
        }
        one_other_change(m, changes, clock);
        history::one_more_change(m, changes, clock);
        assert(machine::next_number(now, c.namespace, c.entity) == machine::next_number(
            before,
            c.namespace,
            c.entity,
        )) by {
            broadcast use group_keys;

            reveal(tag_of);
            assert(keys::queue_counters_key(c.namespace, c.entity) != keys::clock_key());
        }
        assert forall|ns: Seq<char>, e: Seq<char>, n: SequenceNumber|
            proper(ns, e) && (#[trigger] message_in(now, ns, e, n)) is Some && message_in(
                m,
                ns,
                e,
                n,
            ) is None implies ns == c.namespace && arrives(m, now, c, e, n) by {
            assert(message_in(before, ns, e, n) is Some);
            assert(message_in(now, c.namespace, c.entity, n) == message_in(
                before,
                c.namespace,
                c.entity,
                n,
            ));
        }
    }
}

} // verus!
