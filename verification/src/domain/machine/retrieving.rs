//! What whoever retrieves deferred messages is promised: each of them as it was stored,
//! and all of them or none.

use vstd::prelude::*;

use crate::domain::codec;
use crate::domain::command::{CommandView, OutcomeView};
use crate::domain::error::ErrorView;
use crate::domain::keys;
use crate::domain::machine;
use crate::domain::machine::apply;
use crate::domain::machine::deferred;
use crate::domain::machine::history;
use crate::domain::machine::lifecycle;
use crate::domain::machine::numbering;
use crate::domain::machine::orderly;
use crate::domain::machine::places;
use crate::domain::machine::receiving;
use crate::domain::machine::repeats;
use crate::domain::machine::sending;
use crate::domain::machine::settling;
use crate::domain::machine::shared;
use crate::domain::message;
use crate::domain::message::{
    DeadLetterReasonView, DeliveryLock, DeliveryOrigin, DeliveryView, LockToken, MessageState,
    ReceiveMode, RecordView, SequenceNumber,
};
use crate::domain::queue::{QueueConfig, QueueCounters};
use crate::domain::session::SessionRecord;
use crate::storage;
use crate::storage::{Contents, OpView};

verus! {

// ---- what it is told in ----------------------------------------------------

/// The messages that a retrieval names.
pub open spec fn named(m: Contents, c: CommandView) -> Seq<RecordView> {
    let sequences = c.kind->ReceiveDeferred_sequences;
    Seq::new(sequences.len(), |j: int| settling::stored(m, c, sequences[j])->Some_0)
}

/// The session that a retrieval names.
pub open spec fn session_wanted(c: CommandView) -> Option<Seq<char>> {
    match c.kind->ReceiveDeferred_session {
        Some(hold) => Some(hold.session_id),
        None => None,
    }
}

/// Whether a message was deferred, and is of a session or of none.
pub open spec fn is_set_aside(
    m: Contents,
    c: CommandView,
    n: SequenceNumber,
    session: Option<Seq<char>>,
) -> bool {
    settling::stored(m, c, n) matches Some(record) && record.state is Deferred && record.session_id
        == session
}

/// How many of the first `k` messages still live.
pub open spec fn alive(records: Seq<RecordView>, k: int, c: CommandView) -> nat
    decreases k,
{
    if k <= 0 {
        0
    } else if receiving::is_over(records[k - 1], c.issued_at) {
        alive(records, k - 1, c)
    } else {
        alive(records, k - 1, c) + 1
    }
}

/// The token `k` behind another, or the last there is.
pub open spec fn behind_by(n: u64, k: nat) -> u64 {
    if n + k > 0xffff_ffff_ffff_ffff {
        0xffff_ffff_ffff_ffff
    } else {
        (n + k) as u64
    }
}

/// Whether a retrieval names the right session: that of a queue with sessions which its
/// caller holds, or none on a queue without.
pub open spec fn has_its_session(m: Contents, c: CommandView) -> bool {
    &&& sending::queue_named(m, c) matches Some(config)
    &&& config.requires_session <==> c.kind->ReceiveDeferred_session is Some
    &&& c.kind->ReceiveDeferred_session matches Some(hold) ==> receiving::holds_session(m, c, hold)
}

/// Whether a retrieval names some messages, not too many, and each of them once.
pub open spec fn names_messages_once(c: CommandView) -> bool {
    let sequences = c.kind->ReceiveDeferred_sequences;
    &&& 0 < sequences.len() <= 32
    &&& forall|i: int, j: int| 0 <= i < j < sequences.len() ==> sequences[i] != sequences[j]
}

/// Whether all messages that a retrieval names were set aside.
pub open spec fn all_set_aside(m: Contents, c: CommandView) -> bool {
    let sequences = c.kind->ReceiveDeferred_sequences;
    forall|j: int|
        0 <= j < sequences.len() ==> is_set_aside(
            m,
            c,
            #[trigger] sequences[j],
            session_wanted(c),
        )
}

/// Whether a delivery has a lock of its own as long as was asked, or none.
pub open spec fn is_locked_for(
    delivery: DeliveryView,
    c: CommandView,
    config: QueueConfig,
    mode: ReceiveMode,
    asked: Option<u64>,
    token: u64,
) -> bool {
    &&& mode == ReceiveMode::PeekLock ==> delivery.lock == Some(
        DeliveryLock {
            token: LockToken(token),
            locked_until: sending::behind(c.issued_at, receiving::lasts(config, asked)),
            lock_duration_millis: receiving::lasts(config, asked),
        },
    )
    &&& mode == ReceiveMode::ReceiveAndDelete ==> delivery.lock is None
}

// ---- one message at a time -------------------------------------------------

/// Whether a message stands as it should once it was handed out.
spec fn is_out(
    after: Contents,
    c: CommandView,
    mode: ReceiveMode,
    record: RecordView,
    delivery: DeliveryView,
) -> bool {
    &&& !after.dom().contains(keys::deferred_key(c.namespace, c.entity, record.sequence))
    &&& match delivery.lock {
        Some(lock) => {
            &&& mode == ReceiveMode::PeekLock
            &&& machine::message_at(
                after,
                c.namespace,
                c.entity,
                record.sequence,
            ) matches Ok(Some(locked))
            &&& receiving::is_locked_as(
                locked,
                record,
                lock.token,
                lock.locked_until,
                DeliveryOrigin::Deferred,
            )
        },
        None => {
            &&& mode == ReceiveMode::ReceiveAndDelete
            &&& machine::message_at(after, c.namespace, c.entity, record.sequence) == Ok::<
                Option<RecordView>,
                ErrorView,
            >(None)
        },
    }
}

spec fn is_gone(after: Contents, c: CommandView, record: RecordView) -> bool {
    receiving::is_buried(
        after,
        c,
        record,
        record.envelope,
        DeadLetterReasonView::TimeToLiveExpired,
        "the deferred message exceeded its time to live"@,
    )
}

/// What becomes of one message.
proof fn one_message_is_handed_out(
    m: Contents,
    c: CommandView,
    config: QueueConfig,
    mode: ReceiveMode,
    asked: Option<u64>,
    record: RecordView,
    state: deferred::DeferredState,
)
    requires
        orderly::orderly_record(record),
        record.state is Deferred,
        receiving::is_over(record, c.issued_at) ==> machine::shadow_of(c.entity) is Ok,
    ensures
        deferred::deferred_handed_out(c, config, mode, asked, record, state) matches Ok(next) && {
            let after = storage::apply_ops(m, next.0);
            &&& next.0.len() > 0
            &&& receiving::is_over(record, c.issued_at) ==> {
                &&& next.1 == state.1
                &&& next.2 == state.2
                &&& is_gone(after, c, record)
            }
            &&& !receiving::is_over(record, c.issued_at) ==> {
                &&& next.1.len() == state.1.len() + 1
                &&& next.1.drop_last() == state.1
                &&& next.2 == if mode == ReceiveMode::PeekLock {
                    sending::next_to(state.2)
                } else {
                    state.2
                }
                &&& receiving::is_delivery_of(next.1.last(), record, DeliveryOrigin::Deferred)
                &&& is_locked_for(next.1.last(), c, config, mode, asked, state.2)
                &&& is_out(after, c, mode, record, next.1.last())
            }
        },
{
    broadcast use history::one_more_change;

    lifecycle::keys_begin_with_their_tags();
    let next = deferred::deferred_handed_out(c, config, mode, asked, record, state)->Ok_0;
    if receiving::is_over(record, c.issued_at) {
        let reason = DeadLetterReasonView::TimeToLiveExpired;
        let description = "the deferred message exceeded its time to live"@;
        orderly::descriptions_fit();
        orderly::dead_records_are_orderly(record, reason, description, c.issued_at);
        receiving::burials_bury(m, c, record, reason, description, state.0);
    } else {
        let until = sending::behind(c.issued_at, receiving::lasts(config, asked));
        let locked = RecordView {
            delivery_count: receiving::once_more(record.delivery_count),
            state: MessageState::Locked {
                token: LockToken(state.2),
                locked_until: until,
                origin: DeliveryOrigin::Deferred,
            },
            ..record
        };
        orderly::changed_records_are_orderly(record, locked);
        message::stored_messages_read_back(locked);
        assert(next.1.drop_last() =~= state.1);
    }
}

proof fn one_message_leaves_others_alone(
    m: Contents,
    c: CommandView,
    config: QueueConfig,
    mode: ReceiveMode,
    asked: Option<u64>,
    record: RecordView,
    state: deferred::DeferredState,
    n: SequenceNumber,
)
    requires
        n != record.sequence,
    ensures
        deferred::deferred_handed_out(c, config, mode, asked, record, state) matches Ok(next)
            ==> receiving::left_alone(
            storage::apply_ops(m, state.0),
            storage::apply_ops(m, next.0),
            c.namespace,
            n,
        ),
{
    broadcast use history::one_more_change;

    lifecycle::keys_begin_with_their_tags();
    receiving::numbers_tell_keys_apart(c.namespace, n, record.sequence);
    receiving::burials_leave_others_alone(
        m,
        c,
        record,
        DeadLetterReasonView::TimeToLiveExpired,
        "the deferred message exceeded its time to live"@,
        state.0,
        n,
    );
}

/// Whether messages can be handed out.
spec fn are_ready_to_go(c: CommandView, records: Seq<RecordView>) -> bool {
    &&& forall|j: int|
        0 <= j < records.len() ==> {
            &&& orderly::orderly_record(#[trigger] records[j])
            &&& records[j].state is Deferred
            &&& receiving::is_over(records[j], c.issued_at) ==> machine::shadow_of(c.entity) is Ok
        }
    &&& forall|i: int, j: int|
        0 <= i < j < records.len() ==> (#[trigger] records[i]).sequence != (
        #[trigger] records[j]).sequence
}

/// What comes behind leaves what was handed out before alone, and counts on.
proof fn the_rest_is_handed_out(
    m: Contents,
    c: CommandView,
    config: QueueConfig,
    mode: ReceiveMode,
    asked: Option<u64>,
    records: Seq<RecordView>,
    i: int,
    state: deferred::DeferredState,
)
    requires
        are_ready_to_go(c, records),
        0 <= i <= records.len(),
    ensures
        deferred::all_handed_out(c, config, mode, asked, records, i, state) matches Ok(next) && {
            let more = alive(records, records.len() as int, c) - alive(records, i, c);
            &&& more >= 0
            &&& next.0.len() == 0 ==> i == records.len()
            &&& next.1.len() == state.1.len() + more
            &&& forall|d: int| 0 <= d < state.1.len() ==> #[trigger] next.1[d] == state.1[d]
            &&& next.2 == if mode == ReceiveMode::PeekLock {
                behind_by(state.2, more as nat)
            } else {
                state.2
            }
            &&& forall|n: SequenceNumber|
                (forall|j: int| i <= j < records.len() ==> (#[trigger] records[j]).sequence != n)
                    ==> #[trigger] receiving::left_alone(
                    storage::apply_ops(m, state.0),
                    storage::apply_ops(m, next.0),
                    c.namespace,
                    n,
                )
        },
    decreases records.len() - i,
{
    if i < records.len() {
        let record = records[i];
        one_message_is_handed_out(m, c, config, mode, asked, record, state);
        let one = deferred::deferred_handed_out(c, config, mode, asked, record, state)->Ok_0;
        the_rest_is_handed_out(m, c, config, mode, asked, records, i + 1, one);
        let next = deferred::all_handed_out(c, config, mode, asked, records, i, state)->Ok_0;
        assert(next == deferred::all_handed_out(
            c,
            config,
            mode,
            asked,
            records,
            i + 1,
            one,
        )->Ok_0);
        changes_only_grow(c, config, mode, asked, records, i + 1, one);
        assert(alive(records, i + 1, c) == alive(records, i, c) + if receiving::is_over(
            record,
            c.issued_at,
        ) {
            0nat
        } else {
            1nat
        });
        assert forall|d: int| 0 <= d < state.1.len() implies #[trigger] next.1[d]
            == state.1[d] by {
            assert(next.1[d] == one.1[d]);
            if !receiving::is_over(record, c.issued_at) {
                assert(one.1.drop_last()[d] == state.1[d]);
            }
        }
        assert forall|n: SequenceNumber|
            (forall|j: int|
                i <= j < records.len() ==> (#[trigger] records[j]).sequence
                    != n) implies #[trigger] receiving::left_alone(
            storage::apply_ops(m, state.0),
            storage::apply_ops(m, next.0),
            c.namespace,
            n,
        ) by {
            assert(records[i].sequence != n);
            one_message_leaves_others_alone(m, c, config, mode, asked, record, state, n);
            assert(receiving::left_alone(
                storage::apply_ops(m, one.0),
                storage::apply_ops(m, next.0),
                c.namespace,
                n,
            ));
            receiving::both_leave_alone(
                storage::apply_ops(m, state.0),
                storage::apply_ops(m, one.0),
                storage::apply_ops(m, next.0),
                c.namespace,
                n,
            );
        }
    } else {
        assert forall|n: SequenceNumber| #[trigger]
            receiving::left_alone(
                storage::apply_ops(m, state.0),
                storage::apply_ops(m, state.0),
                c.namespace,
                n,
            ) by {}
    }
}

/// What is handed out only adds changes.
proof fn changes_only_grow(
    c: CommandView,
    config: QueueConfig,
    mode: ReceiveMode,
    asked: Option<u64>,
    records: Seq<RecordView>,
    i: int,
    state: deferred::DeferredState,
)
    ensures
        deferred::all_handed_out(c, config, mode, asked, records, i, state) matches Ok(next)
            ==> next.0.len() >= state.0.len(),
    decreases records.len() - i,
{
    if i < records.len() {
        if let Ok(one) = deferred::deferred_handed_out(c, config, mode, asked, records[i], state) {
            changes_only_grow(c, config, mode, asked, records, i + 1, one);
        }
    }
}

/// What becomes of a message while those before and behind it are handed out.
proof fn messages_are_handed_out_on_the_way(
    m: Contents,
    c: CommandView,
    config: QueueConfig,
    mode: ReceiveMode,
    asked: Option<u64>,
    records: Seq<RecordView>,
    i: int,
    state: deferred::DeferredState,
    at: int,
)
    requires
        are_ready_to_go(c, records),
        0 <= i <= at < records.len(),
    ensures
        deferred::all_handed_out(c, config, mode, asked, records, i, state) matches Ok(next) && {
            let record = records[at];
            let after = storage::apply_ops(m, next.0);
            let before = alive(records, at, c) - alive(records, i, c);
            &&& before >= 0
            &&& receiving::is_over(record, c.issued_at) ==> is_gone(after, c, record)
            &&& !receiving::is_over(record, c.issued_at) ==> {
                let delivery = next.1[state.1.len() + before];
                &&& state.1.len() + before < next.1.len()
                &&& receiving::is_delivery_of(delivery, record, DeliveryOrigin::Deferred)
                &&& is_locked_for(
                    delivery,
                    c,
                    config,
                    mode,
                    asked,
                    behind_by(state.2, before as nat),
                )
                &&& is_out(after, c, mode, record, delivery)
            }
        },
    decreases at - i,
{
    let first = records[i];
    one_message_is_handed_out(m, c, config, mode, asked, first, state);
    let one = deferred::deferred_handed_out(c, config, mode, asked, first, state)->Ok_0;
    the_rest_is_handed_out(m, c, config, mode, asked, records, i + 1, one);
    let next = deferred::all_handed_out(c, config, mode, asked, records, i, state)->Ok_0;
    assert(next == deferred::all_handed_out(
        c,
        config,
        mode,
        asked,
        records,
        i + 1,
        one,
    )->Ok_0);
    if at == i {
        let n = first.sequence;
        let before = storage::apply_ops(m, one.0);
        let after = storage::apply_ops(m, next.0);
        assert forall|j: int| i + 1 <= j < records.len() implies (
        #[trigger] records[j]).sequence != n by {
            assert(records[i].sequence != records[j].sequence);
        }
        assert(receiving::left_alone(before, after, c.namespace, n));
        if receiving::is_over(first, c.issued_at) {
            receiving::the_buried_stay_buried(
                before,
                after,
                c,
                first,
                first.envelope,
                DeadLetterReasonView::TimeToLiveExpired,
                "the deferred message exceeded its time to live"@,
            );
        } else {
            assert(lifecycle::agree_on(before, after, keys::message_key(c.namespace, c.entity, n)));
            assert(lifecycle::agree_on(
                before,
                after,
                keys::deferred_key(c.namespace, c.entity, n),
            ));
            assert(next.1[state.1.len() as int] == one.1[state.1.len() as int]);
            assert(one.1.last() == one.1[state.1.len() as int]);
        }
    } else {
        messages_are_handed_out_on_the_way(
            m,
            c,
            config,
            mode,
            asked,
            records,
            i + 1,
            one,
            at,
        );
        assert(alive(records, i + 1, c) == alive(records, i, c) + if receiving::is_over(
            first,
            c.issued_at,
        ) {
            0nat
        } else {
            1nat
        });
    }
}

// ---- the whole of it -------------------------------------------------------

/// Messages that were set aside are found, each under its number.
proof fn what_was_set_aside_is_found(
    m: Contents,
    c: CommandView,
    i: int,
    found: Seq<RecordView>,
)
    requires
        all_set_aside(m, c),
        0 <= i <= c.kind->ReceiveDeferred_sequences.len(),
        found == named(m, c).take(i),
    ensures
        deferred::resolved(
            m,
            c,
            c.kind->ReceiveDeferred_sequences,
            session_wanted(c),
            i,
            found,
        ) == Ok::<Seq<RecordView>, ErrorView>(named(m, c)),
    decreases c.kind->ReceiveDeferred_sequences.len() - i,
{
    let sequences = c.kind->ReceiveDeferred_sequences;
    if i < sequences.len() {
        assert(is_set_aside(m, c, sequences[i], session_wanted(c)));
        let record = settling::stored(m, c, sequences[i])->Some_0;
        assert(found.push(record) =~= named(m, c).take(i + 1));
        what_was_set_aside_is_found(m, c, i + 1, found.push(record));
    } else {
        assert(found =~= named(m, c));
    }
}

spec fn tokens_change(c: CommandView, counters: QueueCounters, next: u64) -> OpView {
    shared::put(
        keys::queue_counters_key(c.namespace, c.entity),
        codec::encoded::<QueueCounters>(QueueCounters { next_lock_token: next, ..counters }),
    )
}

/// A retrieval that is in order hands out what it names, and commits that.
proof fn retrievals_take_their_step(m: Contents, c: CommandView, config: QueueConfig)
    requires
        orderly::orderly(m),
        c.kind is ReceiveDeferred,
        machine::applied_time(m) matches Ok(time) && time.0 <= c.issued_at.0,
        sending::queue_named(m, c) == Some(config),
        names_messages_once(c),
        has_its_session(m, c),
        all_set_aside(m, c),
    ensures
        machine::counters_of(m, c) is Ok,
        ({
            let mode = c.kind->ReceiveDeferred_mode;
            let counters = machine::counters_of(m, c)->Ok_0;
            let token = machine::next_token(m, c.namespace, c.entity);
            &&& counters.next_lock_token == token
            &&& deferred::all_handed_out(
                c,
                config,
                mode,
                c.kind->ReceiveDeferred_lock_duration_millis,
                named(m, c),
                0,
                (Seq::empty(), Seq::empty(), token),
            ) matches Ok(next) ==> {
                let changes = if mode == ReceiveMode::PeekLock && next.1.len() > 0 {
                    next.0.push(tokens_change(c, counters, next.2))
                } else {
                    next.0
                };
                apply::applied(m, c) == (
                    Ok::<OutcomeView, ErrorView>(OutcomeView::DeferredReceived(next.1)),
                    apply::committed(m, changes, c.issued_at),
                )
            }
        }),
{
    let sequences = c.kind->ReceiveDeferred_sequences;
    orderly::clocks_and_counters_are_legible(m, c);
    repeats::without_repeat_all_differ(sequences);
    assert(named(m, c).take(0) =~= Seq::empty());
    what_was_set_aside_is_found(m, c, 0, Seq::empty());
}

/// Storing the counters and stepping the clock leaves every message alone.
proof fn tokens_leave_the_rest_alone(
    m: Contents,
    changes: Seq<OpView>,
    c: CommandView,
    counters: QueueCounters,
    next: u64,
    n: SequenceNumber,
)
    ensures
        ({
            let after = storage::apply_ops(
                m,
                changes.push(tokens_change(c, counters, next)).push(
                    apply::clock_change(c.issued_at),
                ),
            );
            &&& receiving::left_alone(storage::apply_ops(m, changes), after, c.namespace, n)
            &&& machine::next_token(after, c.namespace, c.entity) == next
        }),
{
    broadcast use history::one_more_change;

    lifecycle::keys_begin_with_their_tags();
    codec::stored_values_read_back::<QueueCounters>(
        QueueCounters { next_lock_token: next, ..counters },
    );
}

/// Deferred messages are handed out in the order in which they were named. Each that
/// still lives is delivered as it was stored, and counts the delivery. It is locked for
/// as long as was asked, or gone. One whose life has ended goes to the dead-letter queue
/// instead.
pub proof fn deferred_messages_are_handed_out(m: Contents, c: CommandView, k: int)
    requires
        m.dom().finite(),
        numbering::sound(m),
        orderly::orderly_command(c),
        c.kind is ReceiveDeferred,
        machine::applied_time(m) matches Ok(time) && time.0 <= c.issued_at.0,
        names_messages_once(c),
        has_its_session(m, c),
        all_set_aside(m, c),
        machine::shadow_of(c.entity) is Ok,
        0 <= k < c.kind->ReceiveDeferred_sequences.len(),
    ensures
        ({
            let config = sending::queue_named(m, c)->Some_0;
            let mode = c.kind->ReceiveDeferred_mode;
            let asked = c.kind->ReceiveDeferred_lock_duration_millis;
            let records = named(m, c);
            let record = records[k];
            let before = alive(records, k, c);
            let count = alive(records, records.len() as int, c);
            let token = machine::next_token(m, c.namespace, c.entity);
            let after = apply::applied(m, c).1;
            &&& apply::applied(m, c).0 matches Ok(OutcomeView::DeferredReceived(deliveries))
            &&& deliveries.len() == count
            &&& receiving::is_over(record, c.issued_at) ==> receiving::is_buried(
                after,
                c,
                record,
                record.envelope,
                DeadLetterReasonView::TimeToLiveExpired,
                "the deferred message exceeded its time to live"@,
            )
            &&& !receiving::is_over(record, c.issued_at) ==> {
                let delivery = deliveries[before as int];
                &&& before < count
                &&& receiving::is_delivery_of(delivery, record, DeliveryOrigin::Deferred)
                &&& is_locked_for(delivery, c, config, mode, asked, behind_by(token, before))
                &&& receiving::is_dealt_with(
                    m,
                    after,
                    c,
                    mode,
                    record,
                    delivery,
                    DeliveryOrigin::Deferred,
                )
                &&& !after.dom().contains(
                    keys::deferred_key(c.namespace, c.entity, record.sequence),
                )
            }
            &&& mode == ReceiveMode::PeekLock && count > 0 ==> machine::next_token(
                after,
                c.namespace,
                c.entity,
            ) == behind_by(token, count)
        }),
{
    let config = sending::queue_named(m, c)->Some_0;
    let mode = c.kind->ReceiveDeferred_mode;
    let asked = c.kind->ReceiveDeferred_lock_duration_millis;
    let sequences = c.kind->ReceiveDeferred_sequences;
    let records = named(m, c);
    let token = machine::next_token(m, c.namespace, c.entity);
    let state: deferred::DeferredState = (Seq::empty(), Seq::empty(), token);
    named_messages_are_ready_to_go(m, c);
    retrievals_take_their_step(m, c, config);
    the_rest_is_handed_out(m, c, config, mode, asked, records, 0, state);
    messages_are_handed_out_on_the_way(m, c, config, mode, asked, records, 0, state, k);
    let counters = machine::counters_of(m, c)->Ok_0;
    let next = deferred::all_handed_out(c, config, mode, asked, records, 0, state)->Ok_0;
    let record = records[k];
    let n = record.sequence;
    let before = storage::apply_ops(m, next.0);
    let after = apply::applied(m, c).1;
    assert(next.0.len() > 0);
    if mode == ReceiveMode::PeekLock && next.1.len() > 0 {
        tokens_leave_the_rest_alone(m, next.0, c, counters, next.2, n);
    } else {
        receiving::the_clock_leaves_the_rest_alone(m, next.0, c, n);
    }
    assert(receiving::left_alone(before, after, c.namespace, n));
    if receiving::is_over(record, c.issued_at) {
        receiving::the_buried_stay_buried(
            before,
            after,
            c,
            record,
            record.envelope,
            DeadLetterReasonView::TimeToLiveExpired,
            "the deferred message exceeded its time to live"@,
        );
    } else {
        assert(lifecycle::agree_on(before, after, keys::message_key(c.namespace, c.entity, n)));
        assert(lifecycle::agree_on(before, after, keys::deferred_key(c.namespace, c.entity, n)));
        numbering::commands_keep_stores_sound(m, c);
        numbering::messages_stand_in_the_index_of_their_state(after, c.namespace, c.entity, n);
    }
}

/// What a retrieval names is stored under different numbers, in good order.
proof fn named_messages_are_ready_to_go(m: Contents, c: CommandView)
    requires
        orderly::orderly(m),
        names_messages_once(c),
        all_set_aside(m, c),
        machine::shadow_of(c.entity) is Ok,
    ensures
        are_ready_to_go(c, named(m, c)),
        named(m, c).len() > 0,
        forall|j: int|
            0 <= j < named(m, c).len() ==> (#[trigger] named(m, c)[j]).sequence
                == c.kind->ReceiveDeferred_sequences[j],
{
    let sequences = c.kind->ReceiveDeferred_sequences;
    let records = named(m, c);
    assert forall|j: int| 0 <= j < records.len() implies {
        &&& orderly::orderly_record(#[trigger] records[j])
        &&& records[j].state is Deferred
        &&& records[j].sequence == sequences[j]
    } by {
        assert(is_set_aside(m, c, sequences[j], session_wanted(c)));
        orderly::messages_stand_under_their_numbers(m, c.namespace, c.entity, sequences[j]);
    }
    assert forall|i: int, j: int| 0 <= i < j < records.len() implies (
    #[trigger] records[i]).sequence != (#[trigger] records[j]).sequence by {
        assert(sequences[i] != sequences[j]);
    }
}

/// A retrieval that succeeds was in order.
pub proof fn retrievals_that_succeed_are_in_order(m: Contents, c: CommandView)
    requires
        c.kind is ReceiveDeferred,
        apply::applied(m, c).0 is Ok,
    ensures
        machine::applied_time(m) matches Ok(time) && time.0 <= c.issued_at.0,
        names_messages_once(c),
        has_its_session(m, c),
        all_set_aside(m, c),
{
    let sequences = c.kind->ReceiveDeferred_sequences;
    repeats::without_repeat_all_differ(sequences);
    what_is_found_was_set_aside(m, c, 0, Seq::empty());
}

proof fn what_is_found_was_set_aside(
    m: Contents,
    c: CommandView,
    i: int,
    found: Seq<RecordView>,
)
    requires
        0 <= i,
        deferred::resolved(
            m,
            c,
            c.kind->ReceiveDeferred_sequences,
            session_wanted(c),
            i,
            found,
        ) is Ok,
    ensures
        forall|j: int|
            i <= j < c.kind->ReceiveDeferred_sequences.len() ==> is_set_aside(
                m,
                c,
                #[trigger] c.kind->ReceiveDeferred_sequences[j],
                session_wanted(c),
            ),
    decreases c.kind->ReceiveDeferred_sequences.len() - i,
{
    let sequences = c.kind->ReceiveDeferred_sequences;
    if i < sequences.len() {
        let record = settling::stored(m, c, sequences[i])->Some_0;
        what_is_found_was_set_aside(m, c, i + 1, found.push(record));
    }
}

/// Each delivery of a retrieval is of a message that was named and deferred, whose life
/// has not ended. It says what is stored under its number, and has a lock exactly when
/// the message is not deleted.
pub proof fn deliveries_are_of_deferred_messages(
    m: Contents,
    c: CommandView,
    deliveries: Seq<DeliveryView>,
    j: int,
)
    requires
        m.dom().finite(),
        numbering::sound(m),
        orderly::orderly_command(c),
        c.kind is ReceiveDeferred,
        machine::shadow_of(c.entity) is Ok,
        apply::applied(m, c).0 == Ok::<OutcomeView, ErrorView>(
            OutcomeView::DeferredReceived(deliveries),
        ),
        0 <= j < deliveries.len(),
    ensures
        ({
            let delivery = deliveries[j];
            let mode = c.kind->ReceiveDeferred_mode;
            &&& c.kind->ReceiveDeferred_sequences.contains(delivery.sequence)
            &&& settling::stored(m, c, delivery.sequence) matches Some(record)
            &&& record.state is Deferred
            &&& record.session_id == session_wanted(c)
            &&& !receiving::is_over(record, c.issued_at)
            &&& receiving::is_delivery_of(delivery, record, DeliveryOrigin::Deferred)
            &&& delivery.lock is Some <==> mode == ReceiveMode::PeekLock
            &&& receiving::is_dealt_with(
                m,
                apply::applied(m, c).1,
                c,
                mode,
                record,
                delivery,
                DeliveryOrigin::Deferred,
            )
        }),
{
    let sequences = c.kind->ReceiveDeferred_sequences;
    let records = named(m, c);
    retrievals_that_succeed_are_in_order(m, c);
    named_messages_are_ready_to_go(m, c);
    deferred_messages_are_handed_out(m, c, 0);
    let k = the_living_are_numbered(records, records.len() as int, c, j);
    deferred_messages_are_handed_out(m, c, k);
    assert(is_set_aside(m, c, sequences[k], session_wanted(c)));
    assert(records[k].sequence == sequences[k]);
}

/// Which message is the one with so many living before it.
proof fn the_living_are_numbered(
    records: Seq<RecordView>,
    k: int,
    c: CommandView,
    j: int,
) -> (at: int)
    requires
        0 <= k <= records.len(),
        0 <= j < alive(records, k, c),
    ensures
        0 <= at < k,
        alive(records, at, c) == j,
        !receiving::is_over(records[at], c.issued_at),
    decreases k,
{
    if j < alive(records, k - 1, c) {
        the_living_are_numbered(records, k - 1, c, j)
    } else {
        k - 1
    }
}

/// A retrieval that names no messages, too many or one of them twice is refused, and so
/// is one with a session on a queue without, or the other way round, or with a session
/// that its caller does not hold.
pub proof fn other_retrievals_are_refused(m: Contents, c: CommandView)
    requires
        c.kind is ReceiveDeferred,
        machine::applied_time(m) matches Ok(time) && time.0 <= c.issued_at.0,
    ensures
        ({
            let sequences = c.kind->ReceiveDeferred_sequences;
            let session = c.kind->ReceiveDeferred_session;
            let applied = apply::applied(m, c);
            &&& sequences.len() == 0 ==> applied == (
                Err::<OutcomeView, ErrorView>(ErrorView::EmptyDeferredReceive),
                m,
            )
            &&& sequences.len() > 32 ==> applied == (
                Err::<OutcomeView, ErrorView>(
                    ErrorView::DeferredReceiveBatchTooLarge {
                        count: sequences.len() as usize,
                        maximum: 32,
                    },
                ),
                m,
            )
            &&& 0 < sequences.len() <= 32 && !names_messages_once(c) ==> applied.1 == m && (
            applied.0 matches Err(ErrorView::DuplicateDeferredSequence { sequence })
                && repeats::is_named_twice(sequences, sequence))
            &&& names_messages_once(c) ==> (sending::queue_named(m, c) matches Some(config) ==> {
                &&& config.requires_session && session is None ==> applied == (
                    Err::<OutcomeView, ErrorView>(ErrorView::SessionRequired),
                    m,
                )
                &&& !config.requires_session && session is Some ==> applied == (
                    Err::<OutcomeView, ErrorView>(ErrorView::SessionNotSupported),
                    m,
                )
                &&& config.requires_session ==> (session matches Some(hold) ==> (
                !receiving::holds_session(m, c, hold) ==> applied.0 is Err && applied.1 == m))
            })
        }),
{
    let sequences = c.kind->ReceiveDeferred_sequences;
    repeats::without_repeat_all_differ(sequences);
    repeats::what_repeats_is_named_twice(sequences);
}

/// A retrieval is refused for the first message that is not there, was not deferred, or
/// is of another session, and hands out nothing.
pub proof fn one_wrong_message_stops_all(m: Contents, c: CommandView, k: int)
    requires
        orderly::orderly(m),
        c.kind is ReceiveDeferred,
        machine::applied_time(m) matches Ok(time) && time.0 <= c.issued_at.0,
        names_messages_once(c),
        has_its_session(m, c),
        0 <= k < c.kind->ReceiveDeferred_sequences.len(),
        forall|j: int|
            0 <= j < k ==> is_set_aside(
                m,
                c,
                #[trigger] c.kind->ReceiveDeferred_sequences[j],
                session_wanted(c),
            ),
        !is_set_aside(m, c, c.kind->ReceiveDeferred_sequences[k], session_wanted(c)),
    ensures
        apply::applied(m, c) == (
            Err::<OutcomeView, ErrorView>(
                why_not(m, c, c.kind->ReceiveDeferred_sequences[k]),
            ),
            m,
        ),
{
    let sequences = c.kind->ReceiveDeferred_sequences;
    repeats::without_repeat_all_differ(sequences);
    the_first_wrong_message_stops(m, c, 0, Seq::empty(), k);
}

/// Why a message cannot be retrieved.
pub open spec fn why_not(m: Contents, c: CommandView, n: SequenceNumber) -> ErrorView {
    match settling::stored(m, c, n) {
        None => ErrorView::MessageNotFound { sequence: n },
        Some(record) => if record.state is Deferred {
            ErrorView::DeferredMessageSessionMismatch { sequence: n }
        } else {
            ErrorView::MessageNotDeferred { sequence: n }
        },
    }
}

proof fn the_first_wrong_message_stops(
    m: Contents,
    c: CommandView,
    i: int,
    found: Seq<RecordView>,
    k: int,
)
    requires
        orderly::orderly(m),
        0 <= i <= k < c.kind->ReceiveDeferred_sequences.len(),
        forall|j: int|
            0 <= j < k ==> is_set_aside(
                m,
                c,
                #[trigger] c.kind->ReceiveDeferred_sequences[j],
                session_wanted(c),
            ),
        !is_set_aside(m, c, c.kind->ReceiveDeferred_sequences[k], session_wanted(c)),
    ensures
        deferred::resolved(
            m,
            c,
            c.kind->ReceiveDeferred_sequences,
            session_wanted(c),
            i,
            found,
        ) == Err::<Seq<RecordView>, ErrorView>(
            why_not(m, c, c.kind->ReceiveDeferred_sequences[k]),
        ),
    decreases k - i,
{
    let sequences = c.kind->ReceiveDeferred_sequences;
    orderly::messages_stand_under_their_numbers(m, c.namespace, c.entity, sequences[i]);
    if i < k {
        assert(is_set_aside(m, c, sequences[i], session_wanted(c)));
        let record = settling::stored(m, c, sequences[i])->Some_0;
        the_first_wrong_message_stops(m, c, i + 1, found.push(record), k);
    }
}

} // verus!
