//! What a receiver is promised: the messages that are ready, in their order, as they
//! were stored, and each under a lock of its own for as long as was asked.

use vstd::prelude::*;

use crate::domain::codec;
use crate::domain::command::{CommandView, OutcomeView};
use crate::domain::error::ErrorView;
use crate::domain::identifier;
use crate::domain::keys;
use crate::domain::machine;
use crate::domain::machine::apply;
use crate::domain::machine::delivery;
use crate::domain::machine::history;
use crate::domain::machine::lifecycle;
use crate::domain::machine::numbering;
use crate::domain::machine::orderly;
use crate::domain::machine::places;
use crate::domain::machine::progress;
use crate::domain::machine::sending;
use crate::domain::machine::shared;
use crate::domain::message;
use crate::domain::message::{
    DeadLetterReasonView, DeliveryOrigin, DeliveryView, LockToken, MessageState, ReceiveMode,
    RecordView, SequenceNumber,
};
use crate::domain::order;
use crate::domain::queue::QueueConfig;
use crate::domain::session::{HoldView, SessionRecord};
use crate::domain::time::Timestamp;
use crate::storage;
use crate::storage::{Contents, OpView};

verus! {

// ---- what it is told in ----------------------------------------------------

/// Whether the life of a message has ended.
pub open spec fn is_over(record: RecordView, now: Timestamp) -> bool {
    record.expires_at is Some && record.expires_at->Some_0.0 <= now.0
}

/// One more than `n`, or the most there is.
pub open spec fn once_more(n: u32) -> u32 {
    if n == 0xffff_ffff {
        n
    } else {
        (n + 1) as u32
    }
}

/// Whether a delivery is that of a stored message, once more.
pub open spec fn is_delivery_of(
    delivery: DeliveryView,
    record: RecordView,
    origin: DeliveryOrigin,
) -> bool {
    &&& delivery.sequence == record.sequence
    &&& delivery.message_id == record.message_id
    &&& delivery.body == record.body
    &&& delivery.enqueued_at == record.enqueued_at
    &&& delivery.scheduled_enqueue_at == record.scheduled_enqueue_at
    &&& delivery.expires_at == record.expires_at
    &&& delivery.session_id == record.session_id
    &&& delivery.dead_letter == record.dead_letter
    &&& delivery.envelope == record.envelope
    &&& delivery.delivery_count == once_more(record.delivery_count)
    &&& delivery.origin == origin
}

/// How long a lock is to last: as was asked, or else as the queue says.
pub open spec fn lasts(config: QueueConfig, asked: Option<u64>) -> u64 {
    if asked is Some {
        asked->Some_0
    } else {
        config.lock_duration_millis
    }
}

/// Whether a message is that of before, delivered once more and locked.
pub open spec fn is_locked_as(
    locked: RecordView,
    record: RecordView,
    token: LockToken,
    until: Timestamp,
    origin: DeliveryOrigin,
) -> bool {
    &&& same_message(locked, record)
    &&& locked.session_id == record.session_id
    &&& locked.dead_letter == record.dead_letter
    &&& locked.envelope == record.envelope
    &&& locked.expires_at == record.expires_at
    &&& locked.delivery_count == once_more(record.delivery_count)
    &&& locked.state == (MessageState::Locked { token, locked_until: until, origin })
}

/// Whether two stored messages say the same under the same number.
pub open spec fn same_message(one: RecordView, other: RecordView) -> bool {
    &&& one.sequence == other.sequence
    &&& one.message_id == other.message_id
    &&& one.body == other.body
    &&& one.enqueued_at == other.enqueued_at
    &&& one.scheduled_enqueue_at == other.scheduled_enqueue_at
}

/// Whether a message has gone to the dead-letter queue: it has left its own, and stands
/// ready in the other under the same number, without a life or a session, and with the
/// reason for which it is there.
pub open spec fn is_buried(
    after: Contents,
    c: CommandView,
    record: RecordView,
    envelope: Option<message::EnvelopeView>,
    reason: DeadLetterReasonView,
    description: Seq<char>,
) -> bool {
    let grave = c.entity + "/$deadletterqueue"@;
    &&& machine::message_at(after, c.namespace, c.entity, record.sequence) == Ok::<
        Option<RecordView>,
        ErrorView,
    >(None)
    &&& machine::message_at(after, c.namespace, grave, record.sequence) matches Ok(Some(dead))
    &&& same_message(dead, record)
    &&& dead.envelope == envelope
    &&& dead.delivery_count == record.delivery_count
    &&& dead.state is Ready
    &&& dead.expires_at is None
    &&& dead.session_id is None
    &&& dead.dead_letter matches Some(info)
    &&& info.reason == reason
    &&& info.description == description
    &&& info.dead_lettered_at == c.issued_at
    &&& after.dom().contains(keys::ready_key(c.namespace, grave, record.sequence))
}

/// Whether a receiver holds a session at a time.
pub open spec fn holds_session(m: Contents, c: CommandView, hold: HoldView) -> bool {
    &&& machine::value_at::<SessionRecord>(
        m,
        keys::session_key(c.namespace, c.entity, hold.session_id),
    ) matches Ok(Some(record))
    &&& record.lock matches Some(lock)
    &&& lock.token == hold.token
    &&& lock.locked_until.0 > c.issued_at.0
}

// ---- one number at a time --------------------------------------------------

/// Whether nothing under a number has changed.
pub(crate) open spec fn left_alone(
    before: Contents,
    after: Contents,
    namespace: Seq<char>,
    n: SequenceNumber,
) -> bool {
    &&& forall|path: Seq<char>|
        #![trigger keys::message_key(namespace, path, n)]
        lifecycle::agree_on(before, after, keys::message_key(namespace, path, n))
    &&& forall|path: Seq<char>|
        #![trigger keys::ready_key(namespace, path, n)]
        lifecycle::agree_on(before, after, keys::ready_key(namespace, path, n))
    &&& forall|path: Seq<char>|
        #![trigger keys::deferred_key(namespace, path, n)]
        lifecycle::agree_on(before, after, keys::deferred_key(namespace, path, n))
    &&& forall|path: Seq<char>, id: Seq<char>|
        #![trigger keys::session_ready_key(namespace, path, id, n)]
        lifecycle::agree_on(before, after, keys::session_ready_key(namespace, path, id, n))
}

/// Keys of different numbers differ.
pub(crate) proof fn numbers_tell_keys_apart(
    namespace: Seq<char>,
    a: SequenceNumber,
    b: SequenceNumber,
)
    requires
        a != b,
    ensures
        forall|p: Seq<char>, q: Seq<char>|
            #[trigger] keys::message_key(namespace, p, a) != #[trigger] keys::message_key(
                namespace,
                q,
                b,
            ),
        forall|p: Seq<char>, q: Seq<char>|
            #[trigger] keys::ready_key(namespace, p, a) != #[trigger] keys::ready_key(
                namespace,
                q,
                b,
            ),
        forall|p: Seq<char>, q: Seq<char>|
            #[trigger] keys::deferred_key(namespace, p, a) != #[trigger] keys::deferred_key(
                namespace,
                q,
                b,
            ),
        forall|p: Seq<char>, q: Seq<char>, i: Seq<char>, j: Seq<char>|
            #[trigger] keys::session_ready_key(namespace, p, i, a)
                != #[trigger] keys::session_ready_key(namespace, q, j, b),
{
    assert forall|p: Seq<char>, q: Seq<char>|
        #[trigger] keys::message_key(namespace, p, a) != #[trigger] keys::message_key(
            namespace,
            q,
            b,
        ) by {
        order::sequences_read_back(keys::message_prefix_key(namespace, p), a);
        order::sequences_read_back(keys::message_prefix_key(namespace, q), b);
    }
    assert forall|p: Seq<char>, q: Seq<char>|
        #[trigger] keys::ready_key(namespace, p, a) != #[trigger] keys::ready_key(
            namespace,
            q,
            b,
        ) by {
        order::sequences_read_back(keys::ready_prefix_key(namespace, p), a);
        order::sequences_read_back(keys::ready_prefix_key(namespace, q), b);
    }
    assert forall|p: Seq<char>, q: Seq<char>|
        #[trigger] keys::deferred_key(namespace, p, a) != #[trigger] keys::deferred_key(
            namespace,
            q,
            b,
        ) by {
        order::sequences_read_back(keys::deferred_prefix_key(namespace, p), a);
        order::sequences_read_back(keys::deferred_prefix_key(namespace, q), b);
    }
    assert forall|p: Seq<char>, q: Seq<char>, i: Seq<char>, j: Seq<char>|
        #[trigger] keys::session_ready_key(namespace, p, i, a)
            != #[trigger] keys::session_ready_key(namespace, q, j, b) by {
        order::sequences_read_back(keys::session_ready_prefix_key(namespace, p, i), a);
        order::sequences_read_back(keys::session_ready_prefix_key(namespace, q, j), b);
    }
}

/// A dead-letter queue has the path of its queue and the suffix behind it.
pub(crate) proof fn graves_have_their_path(entity: Seq<char>)
    ensures
        machine::shadow_of(entity) matches Ok(shadow) ==> shadow == entity + "/$deadletterqueue"@
            && shadow != entity,
{
    lifecycle::a_shadow_is_another_path(entity);
}

/// Sending a message to the dead-letter queue leaves other numbers alone.
pub(crate) proof fn burials_leave_others_alone(
    m: Contents,
    c: CommandView,
    record: RecordView,
    reason: DeadLetterReasonView,
    description: Seq<char>,
    batch: Seq<OpView>,
    n: SequenceNumber,
)
    requires
        n != record.sequence,
    ensures
        shared::dead_lettered(c, record, reason, description, batch) matches Ok(changes)
            ==> left_alone(
            storage::apply_ops(m, batch),
            storage::apply_ops(m, changes),
            c.namespace,
            n,
        ),
{
    broadcast use history::one_more_change;

    lifecycle::keys_begin_with_their_tags();
    numbers_tell_keys_apart(c.namespace, n, record.sequence);
}

/// A message that is sent to the dead-letter queue is buried there.
pub(crate) proof fn burials_bury(
    m: Contents,
    c: CommandView,
    record: RecordView,
    reason: DeadLetterReasonView,
    description: Seq<char>,
    batch: Seq<OpView>,
)
    requires
        orderly::orderly_record(shared::dead_record(record, reason, description, c.issued_at)),
    ensures
        shared::dead_lettered(c, record, reason, description, batch) matches Ok(changes)
            ==> is_buried(
            storage::apply_ops(m, changes),
            c,
            record,
            record.envelope,
            reason,
            description,
        ),
{
    broadcast use history::one_more_change;

    lifecycle::keys_begin_with_their_tags();
    lifecycle::dead_letters_leave_their_queue(c, record);
    graves_have_their_path(c.entity);
    message::stored_messages_read_back(
        shared::dead_record(record, reason, description, c.issued_at),
    );
}

/// What is buried stays buried while its number is left alone.
pub(crate) proof fn the_buried_stay_buried(
    before: Contents,
    after: Contents,
    c: CommandView,
    record: RecordView,
    envelope: Option<message::EnvelopeView>,
    reason: DeadLetterReasonView,
    description: Seq<char>,
)
    requires
        is_buried(before, c, record, envelope, reason, description),
        left_alone(before, after, c.namespace, record.sequence),
    ensures
        is_buried(after, c, record, envelope, reason, description),
{
    let grave = c.entity + "/$deadletterqueue"@;
    let key = keys::message_key(c.namespace, c.entity, record.sequence);
    let other = keys::message_key(c.namespace, grave, record.sequence);
    let ready = keys::ready_key(c.namespace, grave, record.sequence);
    assert(lifecycle::agree_on(before, after, key));
    assert(lifecycle::agree_on(before, after, other));
    assert(lifecycle::agree_on(before, after, ready));
}

/// Stepping the clock leaves everything else alone.
pub(crate) proof fn the_clock_leaves_the_rest_alone(
    m: Contents,
    changes: Seq<OpView>,
    c: CommandView,
    n: SequenceNumber,
)
    ensures
        left_alone(
            storage::apply_ops(m, changes),
            storage::apply_ops(m, changes.push(apply::clock_change(c.issued_at))),
            c.namespace,
            n,
        ),
{
    broadcast use history::one_more_change;

    lifecycle::keys_begin_with_their_tags();
}

// ---- what is handed out ----------------------------------------------------

/// Whether a message that is handed out is dealt with: locked for the receiver, or gone.
pub open spec fn is_dealt_with(
    m: Contents,
    after: Contents,
    c: CommandView,
    mode: ReceiveMode,
    record: RecordView,
    received: DeliveryView,
    origin: DeliveryOrigin,
) -> bool {
    match received.lock {
        Some(lock) => {
            &&& mode == ReceiveMode::PeekLock
            &&& machine::message_at(
                after,
                c.namespace,
                c.entity,
                record.sequence,
            ) matches Ok(Some(locked))
            &&& is_locked_as(locked, record, lock.token, lock.locked_until, origin)
            &&& after.dom().contains(
                keys::lock_key(c.namespace, c.entity, lock.locked_until, record.sequence),
            )
        },
        None => {
            &&& mode == ReceiveMode::ReceiveAndDelete
            &&& machine::message_at(after, c.namespace, c.entity, record.sequence) == Ok::<
                Option<RecordView>,
                ErrorView,
            >(None)
        },
    }
}

/// Whether nothing tells of a message being ready any more.
pub open spec fn is_out_of_the_ready_index(
    after: Contents,
    c: CommandView,
    record: RecordView,
) -> bool {
    &&& record.session_id is None ==> !after.dom().contains(
        keys::ready_key(c.namespace, c.entity, record.sequence),
    )
    &&& record.session_id matches Some(id) ==> !after.dom().contains(
        keys::session_ready_key(c.namespace, c.entity, id, record.sequence),
    )
    &&& record.expires_at matches Some(at) ==> !after.dom().contains(
        keys::expiry_key(c.namespace, c.entity, at, record.sequence),
    )
}

proof fn hand_outs_are_dealt_with(
    m: Contents,
    c: CommandView,
    config: QueueConfig,
    mode: ReceiveMode,
    asked: Option<u64>,
    record: RecordView,
    batch: Seq<OpView>,
)
    requires
        orderly::orderly_record(record),
        delivery::handed_out(m, c, config, mode, asked, record.sequence, record, batch) is Ok,
    ensures
        ({
            let (changes, outcome) = delivery::handed_out(
                m,
                c,
                config,
                mode,
                asked,
                record.sequence,
                record,
                batch,
            )->Ok_0;
            let after = storage::apply_ops(m, changes);
            let token = machine::next_token(m, c.namespace, c.entity);
            &&& outcome matches OutcomeView::Received(Some(received))
            &&& is_delivery_of(received, record, DeliveryOrigin::Ready)
            &&& mode == ReceiveMode::PeekLock ==> {
                &&& received.lock matches Some(lock)
                &&& lock.token == LockToken(token)
                &&& lock.lock_duration_millis == lasts(config, asked)
                &&& lock.locked_until == sending::behind(c.issued_at, lasts(config, asked))
                &&& machine::next_token(after, c.namespace, c.entity) == sending::next_to(token)
            }
            &&& is_dealt_with(m, after, c, mode, record, received, DeliveryOrigin::Ready)
            &&& is_out_of_the_ready_index(after, c, record)
            &&& changes.len() > 0
        }),
{
    broadcast use history::one_more_change;

    lifecycle::keys_begin_with_their_tags();
    if mode == ReceiveMode::PeekLock {
        let counters = machine::counters_of(m, c)->Ok_0;
        let until = sending::behind(c.issued_at, lasts(config, asked));
        let state = MessageState::Locked {
            token: LockToken(counters.next_lock_token),
            locked_until: until,
            origin: DeliveryOrigin::Ready,
        };
        message::stored_messages_read_back(
            RecordView { delivery_count: once_more(record.delivery_count), state, ..record },
        );
        codec::stored_values_read_back::<crate::domain::queue::QueueCounters>(
            crate::domain::queue::QueueCounters {
                next_lock_token: sending::next_to(counters.next_lock_token),
                ..counters
            },
        );
    }
}

/// The settings of the queue that a receive names.
proof fn receives_find_their_queue(m: Contents, c: CommandView)
    requires
        c.kind is Receive,
        apply::applied(m, c).0 is Ok,
    ensures
        ({
            let prefix = lifecycle::ready_prefix(c, c.kind->Receive_session);
            let config = delivery::receivable(m, c)->Ok_0;
            let step = delivery::receive_from(
                m,
                c,
                config,
                c.kind->Receive_mode,
                c.kind->Receive_lock_duration_millis,
                storage::scan(m, prefix, prefix, machine::MAX_RECEIVE_SCAN),
                Seq::empty(),
            );
            &&& delivery::receivable(m, c) is Ok
            &&& sending::queue_named(m, c) == Some(config)
            &&& step is Ok
            &&& apply::applied(m, c).0 == Ok::<OutcomeView, ErrorView>(step->Ok_0.1)
            &&& apply::applied(m, c).1 == apply::committed(m, step->Ok_0.0, c.issued_at)
        }),
{
}

/// The session that a receive names has a proper name.
pub open spec fn names_properly(c: CommandView) -> bool {
    &&& places::proper(c.namespace, c.entity)
    &&& progress::session_named(c) matches Some(id) ==> order::clean(id)
}

/// A delivery is that of a message that was ready in the session that was asked for, or
/// in the queue, and whose life has not ended. It says what was stored, and counts the
/// delivery.
pub proof fn deliveries_are_of_ready_messages(m: Contents, c: CommandView, received: DeliveryView)
    requires
        m.dom().finite(),
        numbering::sound(m),
        names_properly(c),
        c.kind is Receive,
        apply::applied(m, c).0 == Ok::<OutcomeView, ErrorView>(
            OutcomeView::Received(Some(received)),
        ),
    ensures
        machine::message_at(m, c.namespace, c.entity, received.sequence) matches Ok(Some(record))
            && {
            &&& record.state is Ready
            &&& record.session_id == progress::session_named(c)
            &&& !is_over(record, c.issued_at)
            &&& is_delivery_of(received, record, DeliveryOrigin::Ready)
            &&& is_dealt_with(
                m,
                apply::applied(m, c).1,
                c,
                c.kind->Receive_mode,
                record,
                received,
                DeliveryOrigin::Ready,
            )
            &&& is_out_of_the_ready_index(apply::applied(m, c).1, c, record)
        },
        c.kind->Receive_mode == ReceiveMode::PeekLock ==> {
            let token = machine::next_token(m, c.namespace, c.entity);
            &&& received.lock matches Some(lock)
            &&& sending::queue_named(m, c) matches Some(config)
            &&& lock.token == LockToken(token)
            &&& lock.lock_duration_millis == lasts(config, c.kind->Receive_lock_duration_millis)
            &&& lock.locked_until == sending::behind(
                c.issued_at,
                lasts(config, c.kind->Receive_lock_duration_millis),
            )
            &&& machine::next_token(apply::applied(m, c).1, c.namespace, c.entity)
                == sending::next_to(token)
        },
        c.kind->Receive_mode == ReceiveMode::ReceiveAndDelete ==> received.lock is None,
{
    let prefix = lifecycle::ready_prefix(c, c.kind->Receive_session);
    let session = progress::session_named(c);
    let mode = c.kind->Receive_mode;
    let asked = c.kind->Receive_lock_duration_millis;
    receives_find_their_queue(m, c);
    let config = delivery::receivable(m, c)->Ok_0;
    let ready = storage::scan(m, prefix, prefix, machine::MAX_RECEIVE_SCAN);
    orderly::ready_indexes_hold_numbers_alone(m, c.namespace, c.entity, session);
    let (at, record, staged) = lifecycle::a_delivery_is_ready(
        m,
        c,
        config,
        mode,
        asked,
        ready,
        Seq::empty(),
    );
    let n = SequenceNumber(lifecycle::found_under_a_number(m, prefix, at));
    order::sequences_read_back(prefix, n);
    orderly::messages_stand_under_their_numbers(m, c.namespace, c.entity, n);
    storage::walk_lists_the_selected_keys(m, prefix, prefix);
    let walked = storage::walk(m, prefix, prefix);
    assert(walked.contains(walked[at]));
    assert(storage::selected(m, prefix, prefix).contains(walked[at]));
    places::ready_entries_lead_to_ready_messages(m, c.namespace, c.entity, session, n);
    hand_outs_are_dealt_with(m, c, config, mode, asked, record, staged);
    let changes = delivery::handed_out(
        m,
        c,
        config,
        mode,
        asked,
        record.sequence,
        record,
        staged,
    )->Ok_0.0;
    history::one_more_change(m, changes, apply::clock_change(c.issued_at));
    lifecycle::keys_begin_with_their_tags();
}

/// Whether the entries of a ready index up to `at` lead to messages whose lives have
/// ended.
spec fn all_are_over(
    m: Contents,
    c: CommandView,
    ready: Seq<(Seq<u8>, Seq<u8>)>,
    at: int,
) -> bool {
    forall|i: int|
        0 <= i < at ==> (keys::last_sequence((#[trigger] ready[i]).0) matches Some(n)
            && machine::message_at(m, c.namespace, c.entity, n) matches Ok(Some(record))
            && is_over(record, c.issued_at))
}

proof fn nothing_is_passed_over(
    m: Contents,
    c: CommandView,
    config: QueueConfig,
    mode: ReceiveMode,
    asked: Option<u64>,
    ready: Seq<(Seq<u8>, Seq<u8>)>,
    batch: Seq<OpView>,
)
    requires
        delivery::receive_from(m, c, config, mode, asked, ready, batch) matches Ok(
            (_, OutcomeView::Received(None)),
        ),
    ensures
        all_are_over(m, c, ready, ready.len() as int),
    decreases ready.len(),
{
    if ready.len() > 0 {
        let sequence = keys::last_sequence(ready[0].0)->Some_0;
        let record = machine::message_at(m, c.namespace, c.entity, sequence)->Ok_0->Some_0;
        let longer = shared::lifetime_over(c, record, batch)->Ok_0;
        let rest = ready.skip(1);
        nothing_is_passed_over(m, c, config, mode, asked, rest, longer);
        assert forall|i: int| 0 <= i < ready.len() implies (keys::last_sequence(
            (#[trigger] ready[i]).0,
        ) matches Some(n) && machine::message_at(m, c.namespace, c.entity, n) matches Ok(
            Some(record),
        ) && is_over(record, c.issued_at)) by {
            if i > 0 {
                assert(rest[i - 1] == ready[i]);
            }
        }
    }
}

/// A receive passes over a message that is ready only when its life has ended: neither
/// in favour of one with a larger number, nor to come back with nothing, unless more
/// wait than a receive looks at.
pub proof fn ready_messages_are_not_passed_over(m: Contents, c: CommandView, n: SequenceNumber)
    requires
        m.dom().finite(),
        numbering::sound(m),
        names_properly(c),
        c.kind is Receive,
        machine::message_at(m, c.namespace, c.entity, n) matches Ok(Some(record))
            && record.state is Ready && record.session_id == progress::session_named(c),
        ({
            let prefix = lifecycle::ready_prefix(c, c.kind->Receive_session);
            match apply::applied(m, c).0 {
                Ok(OutcomeView::Received(Some(received))) => n.0 < received.sequence.0,
                Ok(OutcomeView::Received(None)) => storage::walk(m, prefix, prefix).len() <= 32,
                _ => false,
            }
        }),
    ensures
        is_over(
            machine::message_at(m, c.namespace, c.entity, n)->Ok_0->Some_0,
            c.issued_at,
        ),
{
    let prefix = lifecycle::ready_prefix(c, c.kind->Receive_session);
    let session = progress::session_named(c);
    numbering::messages_stand_in_the_index_of_their_state(m, c.namespace, c.entity, n);
    let key = keys::numbered(prefix, n.0);
    assert(m.dom().contains(key));
    match apply::applied(m, c).0 {
        Ok(OutcomeView::Received(Some(received))) => {
            lifecycle::messages_are_received_in_order(m, c, received, n);
        },
        _ => {
            receives_find_their_queue(m, c);
            let config = delivery::receivable(m, c)->Ok_0;
            let ready = storage::scan(m, prefix, prefix, machine::MAX_RECEIVE_SCAN);
            nothing_is_passed_over(
                m,
                c,
                config,
                c.kind->Receive_mode,
                c.kind->Receive_lock_duration_millis,
                ready,
                Seq::empty(),
            );
            storage::walk_lists_the_selected_keys(m, prefix, prefix);
            let walked = storage::walk(m, prefix, prefix);
            progress::lies_below(prefix, n.0);
            assert(storage::selected(m, prefix, prefix).contains(key));
            assert(walked.contains(key));
            let i = choose|i: int| 0 <= i < walked.len() && walked[i] == key;
            assert(ready[i].0 == key);
            order::sequences_read_back(prefix, n);
        },
    }
}

/// Handing out a message leaves other numbers alone.
proof fn hand_outs_leave_others_alone(
    m: Contents,
    c: CommandView,
    config: QueueConfig,
    mode: ReceiveMode,
    asked: Option<u64>,
    sequence: SequenceNumber,
    record: RecordView,
    batch: Seq<OpView>,
    n: SequenceNumber,
)
    requires
        n != sequence,
        record.sequence == sequence,
    ensures
        delivery::handed_out(m, c, config, mode, asked, sequence, record, batch) matches Ok(
            (changes, _),
        ) ==> left_alone(
            storage::apply_ops(m, batch),
            storage::apply_ops(m, changes),
            c.namespace,
            n,
        ),
{
    broadcast use history::one_more_change;

    lifecycle::keys_begin_with_their_tags();
    numbers_tell_keys_apart(c.namespace, n, sequence);
}

/// Whether entries lead to messages of different numbers.
pub(crate) open spec fn all_differ(ready: Seq<(Seq<u8>, Seq<u8>)>) -> bool {
    forall|i: int, j: int|
        0 <= i < j < ready.len() ==> keys::last_sequence((#[trigger] ready[i]).0)
            != keys::last_sequence((#[trigger] ready[j]).0)
}

proof fn receives_leave_others_alone(
    m: Contents,
    c: CommandView,
    config: QueueConfig,
    mode: ReceiveMode,
    asked: Option<u64>,
    ready: Seq<(Seq<u8>, Seq<u8>)>,
    batch: Seq<OpView>,
    n: SequenceNumber,
)
    requires
        orderly::orderly(m),
        forall|i: int|
            0 <= i < ready.len() ==> keys::last_sequence((#[trigger] ready[i]).0) != Some(n),
    ensures
        delivery::receive_from(m, c, config, mode, asked, ready, batch) matches Ok((changes, _))
            ==> left_alone(
            storage::apply_ops(m, batch),
            storage::apply_ops(m, changes),
            c.namespace,
            n,
        ),
    decreases ready.len(),
{
    if ready.len() > 0 && delivery::receive_from(m, c, config, mode, asked, ready, batch) is Ok {
        let sequence = keys::last_sequence(ready[0].0)->Some_0;
        let record = machine::message_at(m, c.namespace, c.entity, sequence)->Ok_0->Some_0;
        orderly::messages_stand_under_their_numbers(m, c.namespace, c.entity, sequence);
        assert(keys::last_sequence(ready[0].0) != Some(n));
        if message::expired(record, c.issued_at) {
            let longer = shared::lifetime_over(c, record, batch)->Ok_0;
            burials_leave_others_alone(
                m,
                c,
                record,
                DeadLetterReasonView::TimeToLiveExpired,
                "the message exceeded its time to live"@,
                batch,
                n,
            );
            let rest = ready.skip(1);
            assert forall|i: int| 0 <= i < rest.len() implies keys::last_sequence(
                (#[trigger] rest[i]).0,
            ) != Some(n) by {
                assert(rest[i] == ready[i + 1]);
            }
            receives_leave_others_alone(m, c, config, mode, asked, rest, longer, n);
            let a = storage::apply_ops(m, batch);
            let b = storage::apply_ops(m, longer);
            let d = storage::apply_ops(
                m,
                delivery::receive_from(m, c, config, mode, asked, rest, longer)->Ok_0.0,
            );
            both_leave_alone(a, b, d, c.namespace, n);
        } else {
            hand_outs_leave_others_alone(
                m,
                c,
                config,
                mode,
                asked,
                sequence,
                record,
                batch,
                n,
            );
        }
    }
}

/// What is left alone twice is left alone.
pub(crate) proof fn both_leave_alone(
    a: Contents,
    b: Contents,
    d: Contents,
    namespace: Seq<char>,
    n: SequenceNumber,
)
    requires
        left_alone(a, b, namespace, n),
        left_alone(b, d, namespace, n),
    ensures
        left_alone(a, d, namespace, n),
{
    assert forall|path: Seq<char>|
        #![trigger keys::message_key(namespace, path, n)]
        lifecycle::agree_on(a, d, keys::message_key(namespace, path, n)) by {
        assert(lifecycle::agree_on(a, b, keys::message_key(namespace, path, n)));
        assert(lifecycle::agree_on(b, d, keys::message_key(namespace, path, n)));
    }
    assert forall|path: Seq<char>|
        #![trigger keys::ready_key(namespace, path, n)]
        lifecycle::agree_on(a, d, keys::ready_key(namespace, path, n)) by {
        assert(lifecycle::agree_on(a, b, keys::ready_key(namespace, path, n)));
        assert(lifecycle::agree_on(b, d, keys::ready_key(namespace, path, n)));
    }
    assert forall|path: Seq<char>|
        #![trigger keys::deferred_key(namespace, path, n)]
        lifecycle::agree_on(a, d, keys::deferred_key(namespace, path, n)) by {
        assert(lifecycle::agree_on(a, b, keys::deferred_key(namespace, path, n)));
        assert(lifecycle::agree_on(b, d, keys::deferred_key(namespace, path, n)));
    }
    assert forall|path: Seq<char>, id: Seq<char>|
        #![trigger keys::session_ready_key(namespace, path, id, n)]
        lifecycle::agree_on(a, d, keys::session_ready_key(namespace, path, id, n)) by {
        assert(lifecycle::agree_on(a, b, keys::session_ready_key(namespace, path, id, n)));
        assert(lifecycle::agree_on(b, d, keys::session_ready_key(namespace, path, id, n)));
    }
}

proof fn overdue_messages_are_buried_on_the_way(
    m: Contents,
    c: CommandView,
    config: QueueConfig,
    mode: ReceiveMode,
    asked: Option<u64>,
    ready: Seq<(Seq<u8>, Seq<u8>)>,
    batch: Seq<OpView>,
    at: int,
)
    requires
        orderly::orderly(m),
        all_differ(ready),
        delivery::receive_from(m, c, config, mode, asked, ready, batch) is Ok,
        0 <= at < ready.len(),
        forall|i: int|
            0 <= i <= at ==> (keys::last_sequence((#[trigger] ready[i]).0) matches Some(n)
                && machine::message_at(m, c.namespace, c.entity, n) matches Ok(Some(record))
                && is_over(record, c.issued_at)),
    ensures
        ({
            let n = keys::last_sequence(ready[at].0)->Some_0;
            let record = machine::message_at(m, c.namespace, c.entity, n)->Ok_0->Some_0;
            is_buried(
                storage::apply_ops(
                    m,
                    delivery::receive_from(m, c, config, mode, asked, ready, batch)->Ok_0.0,
                ),
                c,
                record,
                record.envelope,
                DeadLetterReasonView::TimeToLiveExpired,
                "the message exceeded its time to live"@,
            )
        }),
    decreases ready.len(),
{
    let reason = DeadLetterReasonView::TimeToLiveExpired;
    let description = "the message exceeded its time to live"@;
    let first = keys::last_sequence(ready[0].0)->Some_0;
    assert(keys::last_sequence(ready[0].0) is Some);
    let record = machine::message_at(m, c.namespace, c.entity, first)->Ok_0->Some_0;
    let longer = shared::lifetime_over(c, record, batch)->Ok_0;
    let rest = ready.skip(1);
    orderly::messages_stand_under_their_numbers(m, c.namespace, c.entity, first);
    assert forall|i: int, j: int| 0 <= i < j < rest.len() implies keys::last_sequence(
        (#[trigger] rest[i]).0,
    ) != keys::last_sequence((#[trigger] rest[j]).0) by {
        assert(rest[i] == ready[i + 1] && rest[j] == ready[j + 1]);
    }
    if at == 0 {
        orderly::descriptions_fit();
        orderly::dead_records_are_orderly(record, reason, description, c.issued_at);
        burials_bury(m, c, record, reason, description, batch);
        assert forall|i: int| 0 <= i < rest.len() implies keys::last_sequence(
            (#[trigger] rest[i]).0,
        ) != Some(first) by {
            assert(rest[i] == ready[i + 1]);
            assert(keys::last_sequence(ready[0].0) != keys::last_sequence(ready[i + 1].0));
        }
        receives_leave_others_alone(m, c, config, mode, asked, rest, longer, first);
        the_buried_stay_buried(
            storage::apply_ops(m, longer),
            storage::apply_ops(
                m,
                delivery::receive_from(m, c, config, mode, asked, rest, longer)->Ok_0.0,
            ),
            c,
            record,
            record.envelope,
            reason,
            description,
        );
    } else {
        assert forall|i: int| 0 <= i <= at - 1 implies (keys::last_sequence(
            (#[trigger] rest[i]).0,
        ) matches Some(n) && machine::message_at(m, c.namespace, c.entity, n) matches Ok(
            Some(record),
        ) && is_over(record, c.issued_at)) by {
            assert(rest[i] == ready[i + 1]);
        }
        assert(rest[at - 1] == ready[at]);
        overdue_messages_are_buried_on_the_way(
            m,
            c,
            config,
            mode,
            asked,
            rest,
            longer,
            at - 1,
        );
    }
}

/// The entries of an index of numbers are of different numbers.
proof fn ready_entries_differ(m: Contents, prefix: Seq<u8>, limit: usize)
    requires
        m.dom().finite(),
        orderly::holds_numbers_alone(m, prefix),
    ensures
        all_differ(storage::scan(m, prefix, prefix, limit)),
{
    let ready = storage::scan(m, prefix, prefix, limit);
    let walked = storage::walk(m, prefix, prefix);
    storage::walk_lists_the_selected_keys(m, prefix, prefix);
    assert forall|i: int, j: int| 0 <= i < j < ready.len() implies keys::last_sequence(
        (#[trigger] ready[i]).0,
    ) != keys::last_sequence((#[trigger] ready[j]).0) by {
        let a = lifecycle::found_under_a_number(m, prefix, i);
        let b = lifecycle::found_under_a_number(m, prefix, j);
        order::sequences_read_back(prefix, SequenceNumber(a));
        order::sequences_read_back(prefix, SequenceNumber(b));
        assert(crate::bytes::lex_lt(walked[i], walked[j]));
        crate::bytes::lex_irreflexive(walked[i]);
    }
}

/// A message that a receive passes over, because its life has ended, is not lost: it
/// goes to the dead-letter queue, with that reason.
pub proof fn overdue_messages_are_buried(m: Contents, c: CommandView, n: SequenceNumber)
    requires
        m.dom().finite(),
        numbering::sound(m),
        names_properly(c),
        c.kind is Receive,
        machine::message_at(m, c.namespace, c.entity, n) matches Ok(Some(record))
            && record.state is Ready && record.session_id == progress::session_named(c),
        ({
            let prefix = lifecycle::ready_prefix(c, c.kind->Receive_session);
            match apply::applied(m, c).0 {
                Ok(OutcomeView::Received(Some(received))) => n.0 < received.sequence.0,
                Ok(OutcomeView::Received(None)) => storage::walk(m, prefix, prefix).len() <= 32,
                _ => false,
            }
        }),
    ensures
        ({
            let record = machine::message_at(m, c.namespace, c.entity, n)->Ok_0->Some_0;
            is_buried(
                apply::applied(m, c).1,
                c,
                record,
                record.envelope,
                DeadLetterReasonView::TimeToLiveExpired,
                "the message exceeded its time to live"@,
            )
        }),
{
    let prefix = lifecycle::ready_prefix(c, c.kind->Receive_session);
    let session = progress::session_named(c);
    let mode = c.kind->Receive_mode;
    let asked = c.kind->Receive_lock_duration_millis;
    let record = machine::message_at(m, c.namespace, c.entity, n)->Ok_0->Some_0;
    let key = keys::numbered(prefix, n.0);
    let ready = storage::scan(m, prefix, prefix, machine::MAX_RECEIVE_SCAN);
    let walked = storage::walk(m, prefix, prefix);
    receives_find_their_queue(m, c);
    let config = delivery::receivable(m, c)->Ok_0;
    numbering::messages_stand_in_the_index_of_their_state(m, c.namespace, c.entity, n);
    assert(m.dom().contains(key));
    orderly::ready_indexes_hold_numbers_alone(m, c.namespace, c.entity, session);
    ready_entries_differ(m, prefix, machine::MAX_RECEIVE_SCAN);
    let i = overdue_entries_come_first(m, c, n);
    overdue_messages_are_buried_on_the_way(m, c, config, mode, asked, ready, Seq::empty(), i);
    let changes = delivery::receive_from(m, c, config, mode, asked, ready, Seq::empty())->Ok_0.0;
    assert(changes.len() > 0) by {
        if changes.len() == 0 {
            assert(storage::apply_ops(m, changes) == m);
        }
    }
    the_clock_leaves_the_rest_alone(m, changes, c, n);
    the_buried_stay_buried(
        storage::apply_ops(m, changes),
        apply::applied(m, c).1,
        c,
        record,
        record.envelope,
        DeadLetterReasonView::TimeToLiveExpired,
        "the message exceeded its time to live"@,
    );
}

/// Where the entry of a message stands that a receive passes over.
proof fn overdue_entries_come_first(m: Contents, c: CommandView, n: SequenceNumber) -> (i: int)
    requires
        m.dom().finite(),
        numbering::sound(m),
        names_properly(c),
        c.kind is Receive,
        machine::message_at(m, c.namespace, c.entity, n) matches Ok(Some(record))
            && record.state is Ready && record.session_id == progress::session_named(c),
        ({
            let prefix = lifecycle::ready_prefix(c, c.kind->Receive_session);
            match apply::applied(m, c).0 {
                Ok(OutcomeView::Received(Some(received))) => n.0 < received.sequence.0,
                Ok(OutcomeView::Received(None)) => storage::walk(m, prefix, prefix).len() <= 32,
                _ => false,
            }
        }),
    ensures
        ({
            let prefix = lifecycle::ready_prefix(c, c.kind->Receive_session);
            let ready = storage::scan(m, prefix, prefix, machine::MAX_RECEIVE_SCAN);
            &&& 0 <= i < ready.len()
            &&& ready[i].0 == keys::numbered(prefix, n.0)
            &&& keys::last_sequence(ready[i].0) == Some(n)
            &&& forall|j: int|
                0 <= j <= i ==> (keys::last_sequence((#[trigger] ready[j]).0) matches Some(k)
                    && machine::message_at(m, c.namespace, c.entity, k) matches Ok(Some(record))
                    && is_over(record, c.issued_at))
        }),
{
    let prefix = lifecycle::ready_prefix(c, c.kind->Receive_session);
    let key = keys::numbered(prefix, n.0);
    let ready = storage::scan(m, prefix, prefix, machine::MAX_RECEIVE_SCAN);
    let walked = storage::walk(m, prefix, prefix);
    receives_find_their_queue(m, c);
    let config = delivery::receivable(m, c)->Ok_0;
    let mode = c.kind->Receive_mode;
    let asked = c.kind->Receive_lock_duration_millis;
    numbering::messages_stand_in_the_index_of_their_state(m, c.namespace, c.entity, n);
    orderly::ready_indexes_hold_numbers_alone(
        m,
        c.namespace,
        c.entity,
        progress::session_named(c),
    );
    order::sequences_read_back(prefix, n);
    match apply::applied(m, c).0 {
        Ok(OutcomeView::Received(Some(received))) => {
            let (at, found, staged) = lifecycle::a_delivery_is_ready(
                m,
                c,
                config,
                mode,
                asked,
                ready,
                Seq::empty(),
            );
            let x = lifecycle::found_under_a_number(m, prefix, at);
            order::sequences_read_back(prefix, SequenceNumber(x));
            assert(received.sequence == SequenceNumber(x));
            let i = lifecycle::smaller_numbers_come_earlier(m, prefix, at, x, n.0);
            assert(ready[i].0 == key);
            i
        },
        _ => {
            nothing_is_passed_over(m, c, config, mode, asked, ready, Seq::empty());
            storage::walk_lists_the_selected_keys(m, prefix, prefix);
            progress::lies_below(prefix, n.0);
            assert(storage::selected(m, prefix, prefix).contains(key));
            assert(walked.contains(key));
            let i = choose|i: int| 0 <= i < walked.len() && walked[i] == key;
            assert(ready[i].0 == key);
            i
        },
    }
}

// ---- when a receive is served ----------------------------------------------

/// A receive is served when its queue is there and, if the queue has sessions, the
/// receiver holds the one it names: it then gets a message, or hears that there is none.
pub proof fn receivers_are_served(m: Contents, c: CommandView)
    requires
        m.dom().finite(),
        numbering::sound(m),
        names_properly(c),
        c.kind is Receive,
        machine::applied_time(m)->Ok_0.0 <= c.issued_at.0,
        sending::queue_named(m, c) is Some,
        sending::queue_named(m, c)->Some_0.requires_session == (c.kind->Receive_session is Some),
        c.kind->Receive_session matches Some(hold) ==> holds_session(m, c, hold),
        machine::shadow_of(c.entity) is Ok,
    ensures
        apply::applied(m, c).0 matches Ok(OutcomeView::Received(_)),
{
    progress::receives_succeed(m, c);
}

/// A receive that cannot be served is refused, with the reason, and changes nothing.
pub proof fn others_are_not_served(m: Contents, c: CommandView)
    requires
        c.kind is Receive,
        machine::applied_time(m) matches Ok(time) && time.0 <= c.issued_at.0,
    ensures
        ({
            let queue = keys::queue_config_key(c.namespace, c.entity);
            let topic = keys::topic_config_key(c.namespace, c.entity);
            let answer = apply::applied(m, c);
            &&& !m.dom().contains(queue) && m.dom().contains(topic) ==> answer == (
                Err::<OutcomeView, ErrorView>(ErrorView::TopicReceiveNotSupported),
                m,
            )
            &&& !m.dom().contains(queue) && !m.dom().contains(topic) ==> answer == (
                Err::<OutcomeView, ErrorView>(ErrorView::QueueNotFound),
                m,
            )
            &&& sending::queue_named(m, c) matches Some(config) ==> {
                &&& config.requires_session && c.kind->Receive_session is None ==> answer == (
                    Err::<OutcomeView, ErrorView>(ErrorView::SessionRequired),
                    m,
                )
                &&& !config.requires_session && c.kind->Receive_session is Some ==> answer == (
                    Err::<OutcomeView, ErrorView>(ErrorView::SessionNotSupported),
                    m,
                )
                &&& c.kind->Receive_session matches Some(hold) ==> !holds_session(m, c, hold)
                    ==> answer.0 is Err && answer.1 == m
            }
        }),
{
}

} // verus!
