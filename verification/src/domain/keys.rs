//! Explicit big-endian key encoding for the broker state machine.
//!
//! Keys are built so that lexicographic byte order is the order the state
//! machine needs to walk them:
//!
//! - the ready index sorts by sequence number, which is queue FIFO order;
//! - the lock index sorts by lock deadline, so the expiry sweep stops at the
//!   first entry that has not elapsed;
//! - the expiry index sorts by message deadline for the same reason;
//! - the scheduled index sorts by requested enqueue time, then placeholder
//!   sequence number, so activation is deterministic and bounded;
//! - the deferred index sorts by sequence number for explicit retrieval and
//!   browsing without making those messages ordinarily ready;
//! - the session ready index sorts by session first and sequence second, so one
//!   session's messages are contiguous and in order within the group, and a
//!   receiver looking for a session to accept walks the groups in turn;
//! - the session lock index sorts by lock deadline, like the message one;
//! - the duplicate-history expiry index sorts by retention deadline, then
//!   exact message identifier, so cleanup is deterministic and bounded.
//!
//! Every entity-scoped key is `tag || namespace || 0x00 || path || 0x00 || ..`,
//! and a session-scoped key appends `session || 0x00` to that. The terminators
//! are safe because identifiers reject control characters, so no name can
//! contain a zero byte and forge another scope's prefix.

use vstd::prelude::*;
use vstd::slice::slice_subrange;

use crate::bytes;
use crate::domain::identifier::{EntityPath, NamespaceName, RuleName, SessionId, SubscriptionName};
use crate::domain::message::SequenceNumber;
use crate::domain::time::Timestamp;

verus! {

pub const TAG_CLOCK: u8 = 0x00;

pub const TAG_QUEUE_CONFIG: u8 = 0x01;

pub const TAG_QUEUE_COUNTERS: u8 = 0x02;

pub const TAG_MESSAGE: u8 = 0x03;

pub const TAG_READY: u8 = 0x04;

pub const TAG_LOCK: u8 = 0x05;

pub const TAG_EXPIRY: u8 = 0x06;

pub const TAG_DEFERRED: u8 = 0x07;

pub const TAG_SESSION: u8 = 0x08;

pub const TAG_SESSION_READY: u8 = 0x09;

pub const TAG_SESSION_LOCK: u8 = 0x0A;

pub const TAG_SCHEDULED: u8 = 0x0B;

pub const TAG_DUPLICATE_ID: u8 = 0x0C;

pub const TAG_DUPLICATE_EXPIRY: u8 = 0x0D;

pub const TAG_TOPIC_CONFIG: u8 = 0x0E;

pub const TAG_TOPIC_SUBSCRIPTION: u8 = 0x0F;

pub const TAG_SUBSCRIPTION_RULE: u8 = 0x10;

pub const SEPARATOR: u8 = 0x00;

// ---- what each key is ------------------------------------------------------

/// `tag || namespace || 0x00 || path || 0x00`.
pub open spec fn scope_key(tag: u8, namespace: Seq<char>, entity: Seq<char>) -> Seq<u8> {
    seq![tag] + bytes::utf8(namespace) + seq![SEPARATOR] + bytes::utf8(entity) + seq![SEPARATOR]
}

/// An entity scope followed by `session || 0x00`.
pub open spec fn session_scope_key(
    tag: u8,
    namespace: Seq<char>,
    entity: Seq<char>,
    session_id: Seq<char>,
) -> Seq<u8> {
    scope_key(tag, namespace, entity) + bytes::utf8(session_id) + seq![SEPARATOR]
}

/// `key` followed by `value` in eight big-endian bytes.
pub open spec fn numbered(key: Seq<u8>, value: u64) -> Seq<u8> {
    key + bytes::be(value as nat, 8)
}

pub open spec fn clock_key() -> Seq<u8> {
    seq![TAG_CLOCK]
}

pub open spec fn queue_config_key(namespace: Seq<char>, entity: Seq<char>) -> Seq<u8> {
    scope_key(TAG_QUEUE_CONFIG, namespace, entity)
}

pub open spec fn queue_config_prefix_key() -> Seq<u8> {
    seq![TAG_QUEUE_CONFIG]
}

pub open spec fn queue_counters_key(namespace: Seq<char>, entity: Seq<char>) -> Seq<u8> {
    scope_key(TAG_QUEUE_COUNTERS, namespace, entity)
}

pub open spec fn message_prefix_key(namespace: Seq<char>, entity: Seq<char>) -> Seq<u8> {
    scope_key(TAG_MESSAGE, namespace, entity)
}

pub open spec fn message_key(
    namespace: Seq<char>,
    entity: Seq<char>,
    sequence: SequenceNumber,
) -> Seq<u8> {
    numbered(message_prefix_key(namespace, entity), sequence.0)
}

pub open spec fn ready_prefix_key(namespace: Seq<char>, entity: Seq<char>) -> Seq<u8> {
    scope_key(TAG_READY, namespace, entity)
}

pub open spec fn ready_key(
    namespace: Seq<char>,
    entity: Seq<char>,
    sequence: SequenceNumber,
) -> Seq<u8> {
    numbered(ready_prefix_key(namespace, entity), sequence.0)
}

pub open spec fn lock_prefix_key(namespace: Seq<char>, entity: Seq<char>) -> Seq<u8> {
    scope_key(TAG_LOCK, namespace, entity)
}

pub open spec fn lock_key(
    namespace: Seq<char>,
    entity: Seq<char>,
    locked_until: Timestamp,
    sequence: SequenceNumber,
) -> Seq<u8> {
    numbered(numbered(lock_prefix_key(namespace, entity), locked_until.0), sequence.0)
}

pub open spec fn expiry_prefix_key(namespace: Seq<char>, entity: Seq<char>) -> Seq<u8> {
    scope_key(TAG_EXPIRY, namespace, entity)
}

pub open spec fn expiry_key(
    namespace: Seq<char>,
    entity: Seq<char>,
    expires_at: Timestamp,
    sequence: SequenceNumber,
) -> Seq<u8> {
    numbered(numbered(expiry_prefix_key(namespace, entity), expires_at.0), sequence.0)
}

pub open spec fn scheduled_prefix_key(namespace: Seq<char>, entity: Seq<char>) -> Seq<u8> {
    scope_key(TAG_SCHEDULED, namespace, entity)
}

pub open spec fn scheduled_key(
    namespace: Seq<char>,
    entity: Seq<char>,
    enqueue_at: Timestamp,
    sequence: SequenceNumber,
) -> Seq<u8> {
    numbered(numbered(scheduled_prefix_key(namespace, entity), enqueue_at.0), sequence.0)
}

pub open spec fn duplicate_id_key(
    namespace: Seq<char>,
    entity: Seq<char>,
    message_id: Seq<char>,
) -> Seq<u8> {
    scope_key(TAG_DUPLICATE_ID, namespace, entity) + bytes::utf8(message_id)
}

pub open spec fn duplicate_expiry_prefix_key(namespace: Seq<char>, entity: Seq<char>) -> Seq<u8> {
    scope_key(TAG_DUPLICATE_EXPIRY, namespace, entity)
}

pub open spec fn duplicate_expiry_key(
    namespace: Seq<char>,
    entity: Seq<char>,
    expires_at: Timestamp,
    message_id: Seq<char>,
) -> Seq<u8> {
    numbered(duplicate_expiry_prefix_key(namespace, entity), expires_at.0) + bytes::utf8(message_id)
}

pub open spec fn deferred_prefix_key(namespace: Seq<char>, entity: Seq<char>) -> Seq<u8> {
    scope_key(TAG_DEFERRED, namespace, entity)
}

pub open spec fn deferred_key(
    namespace: Seq<char>,
    entity: Seq<char>,
    sequence: SequenceNumber,
) -> Seq<u8> {
    numbered(deferred_prefix_key(namespace, entity), sequence.0)
}

pub open spec fn session_key(
    namespace: Seq<char>,
    entity: Seq<char>,
    session_id: Seq<char>,
) -> Seq<u8> {
    session_scope_key(TAG_SESSION, namespace, entity, session_id)
}

pub open spec fn session_ready_prefix_key(
    namespace: Seq<char>,
    entity: Seq<char>,
    session_id: Seq<char>,
) -> Seq<u8> {
    session_scope_key(TAG_SESSION_READY, namespace, entity, session_id)
}

pub open spec fn session_ready_key(
    namespace: Seq<char>,
    entity: Seq<char>,
    session_id: Seq<char>,
    sequence: SequenceNumber,
) -> Seq<u8> {
    numbered(session_ready_prefix_key(namespace, entity, session_id), sequence.0)
}

pub open spec fn entity_session_ready_prefix_key(
    namespace: Seq<char>,
    entity: Seq<char>,
) -> Seq<u8> {
    scope_key(TAG_SESSION_READY, namespace, entity)
}

pub open spec fn after_session_ready_key(
    namespace: Seq<char>,
    entity: Seq<char>,
    session_id: Seq<char>,
) -> Seq<u8> {
    scope_key(TAG_SESSION_READY, namespace, entity) + bytes::utf8(session_id) + seq![
        (SEPARATOR + 1) as u8,
    ]
}

pub open spec fn session_lock_prefix_key(namespace: Seq<char>, entity: Seq<char>) -> Seq<u8> {
    scope_key(TAG_SESSION_LOCK, namespace, entity)
}

pub open spec fn session_lock_key(
    namespace: Seq<char>,
    entity: Seq<char>,
    locked_until: Timestamp,
    session_id: Seq<char>,
) -> Seq<u8> {
    numbered(session_lock_prefix_key(namespace, entity), locked_until.0) + bytes::utf8(session_id)
}

pub open spec fn topic_config_key(namespace: Seq<char>, topic: Seq<char>) -> Seq<u8> {
    scope_key(TAG_TOPIC_CONFIG, namespace, topic)
}

pub open spec fn topic_subscription_prefix_key(namespace: Seq<char>, topic: Seq<char>) -> Seq<u8> {
    scope_key(TAG_TOPIC_SUBSCRIPTION, namespace, topic)
}

pub open spec fn topic_subscription_key(
    namespace: Seq<char>,
    topic: Seq<char>,
    name: Seq<char>,
) -> Seq<u8> {
    topic_subscription_prefix_key(namespace, topic) + bytes::utf8(name)
}

pub open spec fn subscription_rule_prefix_key(
    namespace: Seq<char>,
    subscription: Seq<char>,
) -> Seq<u8> {
    scope_key(TAG_SUBSCRIPTION_RULE, namespace, subscription)
}

pub open spec fn subscription_rule_key(
    namespace: Seq<char>,
    subscription: Seq<char>,
    name: Seq<char>,
) -> Seq<u8> {
    subscription_rule_prefix_key(namespace, subscription) + bytes::utf8(name)
}

// ---- building --------------------------------------------------------------

fn scope(tag: u8, namespace: &str, entity: &str) -> (key: Vec<u8>)
    ensures
        key@ == scope_key(tag, namespace@, entity@),
{
    let mut key: Vec<u8> = Vec::new();
    key.push(tag);
    bytes::append(&mut key, namespace.as_bytes());
    key.push(SEPARATOR);
    bytes::append(&mut key, entity.as_bytes());
    key.push(SEPARATOR);
    proof {
        assert(key@ =~= scope_key(tag, namespace@, entity@));
    }
    key
}

fn entity_scope(tag: u8, namespace: &NamespaceName, entity: &EntityPath) -> (key: Vec<u8>)
    ensures
        key@ == scope_key(tag, namespace.deep_view(), entity.deep_view()),
{
    scope(tag, namespace.as_str(), entity.as_str())
}

fn session_scope(
    tag: u8,
    namespace: &NamespaceName,
    entity: &EntityPath,
    session_id: &SessionId,
) -> (key: Vec<u8>)
    ensures
        key@ == session_scope_key(
            tag,
            namespace.deep_view(),
            entity.deep_view(),
            session_id.deep_view(),
        ),
{
    let mut key = entity_scope(tag, namespace, entity);
    bytes::append(&mut key, session_id.as_str().as_bytes());
    key.push(SEPARATOR);
    proof {
        assert(key@ =~= session_scope_key(
            tag,
            namespace.deep_view(),
            entity.deep_view(),
            session_id.deep_view(),
        ));
    }
    key
}

fn with_u64(key: Vec<u8>, value: u64) -> (longer: Vec<u8>)
    ensures
        longer@ == numbered(key@, value),
{
    let mut longer = key;
    bytes::push_be64(&mut longer, value);
    longer
}

fn with_text(key: Vec<u8>, text: &str) -> (longer: Vec<u8>)
    ensures
        longer@ == key@ + bytes::utf8(text@),
{
    let mut longer = key;
    bytes::append(&mut longer, text.as_bytes());
    longer
}

/// The single record holding the highest timestamp the machine has applied.
pub fn clock() -> (key: Vec<u8>)
    ensures
        key@ == clock_key(),
{
    let mut key: Vec<u8> = Vec::new();
    key.push(TAG_CLOCK);
    proof {
        assert(key@ =~= clock_key());
    }
    key
}

pub fn queue_config(namespace: &NamespaceName, entity: &EntityPath) -> (key: Vec<u8>)
    ensures
        key@ == queue_config_key(namespace.deep_view(), entity.deep_view()),
{
    entity_scope(TAG_QUEUE_CONFIG, namespace, entity)
}

/// Every queue configuration in the store, across every namespace. Walking it is
/// how the timer worker learns what there is to sweep.
pub fn queue_config_prefix() -> (key: Vec<u8>)
    ensures
        key@ == queue_config_prefix_key(),
{
    let mut key: Vec<u8> = Vec::new();
    key.push(TAG_QUEUE_CONFIG);
    proof {
        assert(key@ =~= queue_config_prefix_key());
    }
    key
}

pub fn queue_counters(namespace: &NamespaceName, entity: &EntityPath) -> (key: Vec<u8>)
    ensures
        key@ == queue_counters_key(namespace.deep_view(), entity.deep_view()),
{
    entity_scope(TAG_QUEUE_COUNTERS, namespace, entity)
}

pub fn message(namespace: &NamespaceName, entity: &EntityPath, sequence: SequenceNumber) -> (key:
    Vec<u8>)
    ensures
        key@ == message_key(namespace.deep_view(), entity.deep_view(), sequence),
{
    with_u64(message_prefix(namespace, entity), sequence.as_u64())
}

/// Every primary message record in an entity, ordered by sequence number.
pub fn message_prefix(namespace: &NamespaceName, entity: &EntityPath) -> (key: Vec<u8>)
    ensures
        key@ == message_prefix_key(namespace.deep_view(), entity.deep_view()),
{
    entity_scope(TAG_MESSAGE, namespace, entity)
}

pub fn ready_prefix(namespace: &NamespaceName, entity: &EntityPath) -> (key: Vec<u8>)
    ensures
        key@ == ready_prefix_key(namespace.deep_view(), entity.deep_view()),
{
    entity_scope(TAG_READY, namespace, entity)
}

pub fn ready(namespace: &NamespaceName, entity: &EntityPath, sequence: SequenceNumber) -> (key: Vec<
    u8,
>)
    ensures
        key@ == ready_key(namespace.deep_view(), entity.deep_view(), sequence),
{
    with_u64(ready_prefix(namespace, entity), sequence.as_u64())
}

pub fn lock_prefix(namespace: &NamespaceName, entity: &EntityPath) -> (key: Vec<u8>)
    ensures
        key@ == lock_prefix_key(namespace.deep_view(), entity.deep_view()),
{
    entity_scope(TAG_LOCK, namespace, entity)
}

pub fn lock(
    namespace: &NamespaceName,
    entity: &EntityPath,
    locked_until: Timestamp,
    sequence: SequenceNumber,
) -> (key: Vec<u8>)
    ensures
        key@ == lock_key(namespace.deep_view(), entity.deep_view(), locked_until, sequence),
{
    let key = with_u64(lock_prefix(namespace, entity), locked_until.as_millis());
    with_u64(key, sequence.as_u64())
}

pub fn expiry_prefix(namespace: &NamespaceName, entity: &EntityPath) -> (key: Vec<u8>)
    ensures
        key@ == expiry_prefix_key(namespace.deep_view(), entity.deep_view()),
{
    entity_scope(TAG_EXPIRY, namespace, entity)
}

pub fn expiry(
    namespace: &NamespaceName,
    entity: &EntityPath,
    expires_at: Timestamp,
    sequence: SequenceNumber,
) -> (key: Vec<u8>)
    ensures
        key@ == expiry_key(namespace.deep_view(), entity.deep_view(), expires_at, sequence),
{
    let key = with_u64(expiry_prefix(namespace, entity), expires_at.as_millis());
    with_u64(key, sequence.as_u64())
}

pub fn scheduled_prefix(namespace: &NamespaceName, entity: &EntityPath) -> (key: Vec<u8>)
    ensures
        key@ == scheduled_prefix_key(namespace.deep_view(), entity.deep_view()),
{
    entity_scope(TAG_SCHEDULED, namespace, entity)
}

/// A scheduled placeholder ordered by requested enqueue time and then its
/// temporary sequence number.
pub fn scheduled(
    namespace: &NamespaceName,
    entity: &EntityPath,
    enqueue_at: Timestamp,
    sequence: SequenceNumber,
) -> (key: Vec<u8>)
    ensures
        key@ == scheduled_key(namespace.deep_view(), entity.deep_view(), enqueue_at, sequence),
{
    let key = with_u64(scheduled_prefix(namespace, entity), enqueue_at.as_millis());
    with_u64(key, sequence.as_u64())
}

/// Exact nonpartitioned message-identifier lookup for duplicate detection.
///
/// The identifier is the final key component, so it needs no separator or
/// escaping even when it contains arbitrary Unicode.
pub fn duplicate_id(namespace: &NamespaceName, entity: &EntityPath, message_id: &str) -> (key: Vec<
    u8,
>)
    ensures
        key@ == duplicate_id_key(namespace.deep_view(), entity.deep_view(), message_id@),
{
    with_text(entity_scope(TAG_DUPLICATE_ID, namespace, entity), message_id)
}

pub fn duplicate_expiry_prefix(namespace: &NamespaceName, entity: &EntityPath) -> (key: Vec<u8>)
    ensures
        key@ == duplicate_expiry_prefix_key(namespace.deep_view(), entity.deep_view()),
{
    entity_scope(TAG_DUPLICATE_EXPIRY, namespace, entity)
}

/// One duplicate-history generation ordered by deadline before identifier.
pub fn duplicate_expiry(
    namespace: &NamespaceName,
    entity: &EntityPath,
    expires_at: Timestamp,
    message_id: &str,
) -> (key: Vec<u8>)
    ensures
        key@ == duplicate_expiry_key(
            namespace.deep_view(),
            entity.deep_view(),
            expires_at,
            message_id@,
        ),
{
    let key = with_u64(duplicate_expiry_prefix(namespace, entity), expires_at.as_millis());
    with_text(key, message_id)
}

pub fn deferred_prefix(namespace: &NamespaceName, entity: &EntityPath) -> (key: Vec<u8>)
    ensures
        key@ == deferred_prefix_key(namespace.deep_view(), entity.deep_view()),
{
    entity_scope(TAG_DEFERRED, namespace, entity)
}

pub fn deferred(namespace: &NamespaceName, entity: &EntityPath, sequence: SequenceNumber) -> (key:
    Vec<u8>)
    ensures
        key@ == deferred_key(namespace.deep_view(), entity.deep_view(), sequence),
{
    with_u64(deferred_prefix(namespace, entity), sequence.as_u64())
}

/// The record holding one session's lock and state.
pub fn session(namespace: &NamespaceName, entity: &EntityPath, session_id: &SessionId) -> (key: Vec<
    u8,
>)
    ensures
        key@ == session_key(namespace.deep_view(), entity.deep_view(), session_id.deep_view()),
{
    session_scope(TAG_SESSION, namespace, entity, session_id)
}

/// Ready messages of one session, ordered by sequence: the FIFO order a
/// session guarantees.
pub fn session_ready_prefix(
    namespace: &NamespaceName,
    entity: &EntityPath,
    session_id: &SessionId,
) -> (key: Vec<u8>)
    ensures
        key@ == session_ready_prefix_key(
            namespace.deep_view(),
            entity.deep_view(),
            session_id.deep_view(),
        ),
{
    session_scope(TAG_SESSION_READY, namespace, entity, session_id)
}

pub fn session_ready(
    namespace: &NamespaceName,
    entity: &EntityPath,
    session_id: &SessionId,
    sequence: SequenceNumber,
) -> (key: Vec<u8>)
    ensures
        key@ == session_ready_key(
            namespace.deep_view(),
            entity.deep_view(),
            session_id.deep_view(),
            sequence,
        ),
{
    with_u64(session_ready_prefix(namespace, entity, session_id), sequence.as_u64())
}

/// Every ready message in the entity, grouped by session and ordered by session
/// identifier. Walking it is how a receiver finds a session to accept.
pub fn entity_session_ready_prefix(namespace: &NamespaceName, entity: &EntityPath) -> (key: Vec<u8>)
    ensures
        key@ == entity_session_ready_prefix_key(namespace.deep_view(), entity.deep_view()),
{
    entity_scope(TAG_SESSION_READY, namespace, entity)
}

/// The key sorting immediately after every ready entry of `session_id`, which is
/// where a walk resumes once it has rejected that session.
///
/// Session identifiers cannot contain a control character, so replacing the
/// terminator with `0x01` sorts past every key in the session and before the
/// first key of any later one.
pub fn after_session_ready(
    namespace: &NamespaceName,
    entity: &EntityPath,
    session_id: &SessionId,
) -> (key: Vec<u8>)
    ensures
        key@ == after_session_ready_key(
            namespace.deep_view(),
            entity.deep_view(),
            session_id.deep_view(),
        ),
{
    let mut key = with_text(
        entity_scope(TAG_SESSION_READY, namespace, entity),
        session_id.as_str(),
    );
    key.push(SEPARATOR + 1);
    proof {
        assert(key@ =~= after_session_ready_key(
            namespace.deep_view(),
            entity.deep_view(),
            session_id.deep_view(),
        ));
    }
    key
}

/// Session locks ordered by deadline, so a sweep stops at the first lock that is
/// still held.
pub fn session_lock_prefix(namespace: &NamespaceName, entity: &EntityPath) -> (key: Vec<u8>)
    ensures
        key@ == session_lock_prefix_key(namespace.deep_view(), entity.deep_view()),
{
    entity_scope(TAG_SESSION_LOCK, namespace, entity)
}

pub fn session_lock(
    namespace: &NamespaceName,
    entity: &EntityPath,
    locked_until: Timestamp,
    session_id: &SessionId,
) -> (key: Vec<u8>)
    ensures
        key@ == session_lock_key(
            namespace.deep_view(),
            entity.deep_view(),
            locked_until,
            session_id.deep_view(),
        ),
{
    let key = with_u64(session_lock_prefix(namespace, entity), locked_until.as_millis());
    with_text(key, session_id.as_str())
}

/// The configuration of one topic.
pub fn topic_config(namespace: &NamespaceName, topic: &EntityPath) -> (key: Vec<u8>)
    ensures
        key@ == topic_config_key(namespace.deep_view(), topic.deep_view()),
{
    entity_scope(TAG_TOPIC_CONFIG, namespace, topic)
}

/// Every subscription of one topic, ordered by name.
pub fn topic_subscription_prefix(namespace: &NamespaceName, topic: &EntityPath) -> (key: Vec<u8>)
    ensures
        key@ == topic_subscription_prefix_key(namespace.deep_view(), topic.deep_view()),
{
    entity_scope(TAG_TOPIC_SUBSCRIPTION, namespace, topic)
}

pub fn topic_subscription(
    namespace: &NamespaceName,
    topic: &EntityPath,
    name: &SubscriptionName,
) -> (key: Vec<u8>)
    ensures
        key@ == topic_subscription_key(
            namespace.deep_view(),
            topic.deep_view(),
            name.deep_view(),
        ),
{
    with_text(topic_subscription_prefix(namespace, topic), name.as_str())
}

/// The entry of the subscription `name` below whatever `topic` names.
pub(crate) fn subscription_below(
    namespace: &NamespaceName,
    topic: &str,
    name: &SubscriptionName,
) -> (key: Vec<u8>)
    ensures
        key@ == topic_subscription_key(namespace.deep_view(), topic@, name.deep_view()),
{
    with_text(scope(TAG_TOPIC_SUBSCRIPTION, namespace.as_str(), topic), name.as_str())
}

/// Every rule of one subscription, ordered by name.
pub fn subscription_rule_prefix(namespace: &NamespaceName, subscription: &EntityPath) -> (key: Vec<
    u8,
>)
    ensures
        key@ == subscription_rule_prefix_key(namespace.deep_view(), subscription.deep_view()),
{
    entity_scope(TAG_SUBSCRIPTION_RULE, namespace, subscription)
}

pub fn subscription_rule(
    namespace: &NamespaceName,
    subscription: &EntityPath,
    name: &RuleName,
) -> (key: Vec<u8>)
    ensures
        key@ == subscription_rule_key(
            namespace.deep_view(),
            subscription.deep_view(),
            name.deep_view(),
        ),
{
    with_text(subscription_rule_prefix(namespace, subscription), name.as_str())
}

// ---- reading back ----------------------------------------------------------

/// Where the first separator at or after `from` stands in `key`.
pub open spec fn separator_at(key: Seq<u8>, from: int, end: int) -> bool {
    &&& from <= end < key.len()
    &&& key[end] == SEPARATOR
    &&& forall|j: int| from <= j < end ==> key[j] != SEPARATOR
}

/// The text between `from` and the next separator, and where that stands.
pub open spec fn segment(key: Seq<u8>, from: int) -> Option<(Seq<char>, int)> {
    if exists|end: int| separator_at(key, from, end) {
        let end = choose|end: int| separator_at(key, from, end);
        match bytes::from_utf8(key.subrange(from, end)) {
            Some(text) => Some((text, end)),
            None => None,
        }
    } else {
        None
    }
}

/// The namespace and entity path that stand in an entity-scoped key.
pub open spec fn scope_parts(key: Seq<u8>) -> Option<(Seq<char>, Seq<char>)> {
    if key.len() < 1 {
        None
    } else {
        match segment(key, 1) {
            None => None,
            Some((namespace, end)) => match segment(key, end + 1) {
                None => None,
                Some((entity, _)) => Some((namespace, entity)),
            },
        }
    }
}

/// The session identifier that follows `prefix` in `key`.
pub open spec fn session_after(prefix: Seq<u8>, key: Seq<u8>) -> Option<Seq<char>> {
    if key.len() < prefix.len() {
        None
    } else {
        match segment(key, prefix.len() as int) {
            None => None,
            Some((text, _)) => Some(text),
        }
    }
}

/// The deadline and the text that follow `prefix` in `key`.
pub open spec fn deadline_and_text(prefix: Seq<u8>, key: Seq<u8>) -> Option<
    (Timestamp, Seq<char>),
> {
    let from = prefix.len() as int;
    if key.len() < from + 8 {
        None
    } else {
        match bytes::from_utf8(key.subrange(from + 8, key.len() as int)) {
            Some(text) => Some(
                (Timestamp(bytes::be_value(key.subrange(from, from + 8)) as u64), text),
            ),
            None => None,
        }
    }
}

/// The sequence number in the last eight bytes of `key`.
pub open spec fn last_sequence(key: Seq<u8>) -> Option<SequenceNumber> {
    if key.len() < 8 {
        None
    } else {
        Some(
            SequenceNumber(
                bytes::be_value(key.subrange(key.len() - 8, key.len() as int)) as u64,
            ),
        )
    }
}

/// The deadline and sequence number in the last sixteen bytes of `key`.
pub open spec fn last_deadline(key: Seq<u8>) -> Option<(Timestamp, SequenceNumber)> {
    if key.len() < 16 {
        None
    } else {
        Some(
            (
                Timestamp(
                    bytes::be_value(key.subrange(key.len() - 16, key.len() - 8)) as u64,
                ),
                last_sequence(key)->Some_0,
            ),
        )
    }
}

fn read_segment(key: &[u8], from: usize) -> (part: Option<(&str, usize)>)
    requires
        from <= key@.len(),
    ensures
        match part {
            Some((text, end)) => segment(key@, from as int) == Some((text@, end as int)) && from
                <= end < key@.len(),
            None => segment(key@, from as int) is None,
        },
{
    match bytes::find_byte(key, from, SEPARATOR) {
        None => {
            proof {
                if exists|end: int| separator_at(key@, from as int, end) {
                    let end = choose|end: int| separator_at(key@, from as int, end);
                    assert(key@[end] != SEPARATOR);
                }
            }
            None
        },
        Some(end) => {
            proof {
                assert(separator_at(key@, from as int, end as int));
                let other = choose|other: int| separator_at(key@, from as int, other);
                if other < end {
                    assert(key@[other] != SEPARATOR);
                }
                if end < other {
                    assert(key@[end as int] != SEPARATOR);
                }
            }
            match bytes::read_text(slice_subrange(key, from, end)) {
                Some(text) => Some((text, end)),
                None => None,
            }
        },
    }
}

/// Reads the namespace and entity path back out of an entity-scoped key.
pub fn entity_scope_parts(key: &[u8]) -> (parts: Option<(&str, &str)>)
    ensures
        match parts {
            Some((namespace, entity)) => scope_parts(key@) == Some((namespace@, entity@)),
            None => scope_parts(key@) is None,
        },
{
    if key.len() < 1 {
        return None;
    }
    match read_segment(key, 1) {
        None => None,
        Some((namespace, end)) => match read_segment(key, end + 1) {
            None => None,
            Some((entity, _)) => Some((namespace, entity)),
        },
    }
}

fn deadline_text<'a>(prefix: &[u8], key: &'a [u8]) -> (parts: Option<(Timestamp, &'a str)>)
    ensures
        match parts {
            Some((deadline, text)) => deadline_and_text(prefix@, key@) == Some((deadline, text@)),
            None => deadline_and_text(prefix@, key@) is None,
        },
{
    let from: usize = prefix.len();
    if key.len() < from || key.len() - from < 8 {
        return None;
    }
    let deadline: u64 = bytes::read_be(key, from, 8);
    match bytes::read_text(slice_subrange(key, from + 8, key.len())) {
        Some(text) => Some((Timestamp::from_millis(deadline), text)),
        None => None,
    }
}

/// Reads the deadline and exact identifier from a duplicate expiry key.
pub fn duplicate_expiry_parts<'a>(prefix: &[u8], key: &'a [u8]) -> (parts: Option<
    (Timestamp, &'a str),
>)
    ensures
        match parts {
            Some((deadline, text)) => deadline_and_text(prefix@, key@) == Some((deadline, text@)),
            None => deadline_and_text(prefix@, key@) is None,
        },
{
    deadline_text(prefix, key)
}

/// Reads the session identifier from a key built on `prefix`, which must be the
/// entity-scoped prefix that key was built from.
pub fn session_id_after<'a>(prefix: &[u8], key: &'a [u8]) -> (id: Option<&'a str>)
    ensures
        match id {
            Some(id) => session_after(prefix@, key@) == Some(id@),
            None => session_after(prefix@, key@) is None,
        },
{
    if key.len() < prefix.len() {
        return None;
    }
    match read_segment(key, prefix.len()) {
        Some((id, _)) => Some(id),
        None => None,
    }
}

/// Reads the deadline and session identifier from a session lock index key.
pub fn session_lock_parts<'a>(prefix: &[u8], key: &'a [u8]) -> (parts: Option<(Timestamp, &'a str)>)
    ensures
        match parts {
            Some((deadline, text)) => deadline_and_text(prefix@, key@) == Some((deadline, text@)),
            None => deadline_and_text(prefix@, key@) is None,
        },
{
    deadline_text(prefix, key)
}

/// Reads the sequence number from a ready or dead-letter index key.
pub fn trailing_sequence(key: &[u8]) -> (sequence: Option<SequenceNumber>)
    ensures
        sequence == last_sequence(key@),
{
    if key.len() < 8 {
        return None;
    }
    Some(SequenceNumber::new(bytes::read_be(key, key.len() - 8, 8)))
}

/// Reads the deadline and sequence number from a lock or expiry index key.
pub fn trailing_deadline(key: &[u8]) -> (parts: Option<(Timestamp, SequenceNumber)>)
    ensures
        parts == last_deadline(key@),
{
    if key.len() < 16 {
        return None;
    }
    let deadline: u64 = bytes::read_be(key, key.len() - 16, 8);
    let sequence: u64 = bytes::read_be(key, key.len() - 8, 8);
    Some((Timestamp::from_millis(deadline), SequenceNumber::new(sequence)))
}

} // verus!
