//! What the sweeps for locks and lifetimes do to each message that they come by, and
//! what they leave alone.

use vstd::prelude::*;

use crate::bytes;
use crate::domain::command::{CommandView, OutcomeView};
use crate::domain::error::ErrorView;
use crate::domain::keys;
use crate::domain::machine;
use crate::domain::machine::apply;
use crate::domain::machine::expiry;
use crate::domain::machine::history;
use crate::domain::machine::lifecycle;
use crate::domain::machine::numbering;
use crate::domain::machine::orderly;
use crate::domain::machine::places;
use crate::domain::machine::progress;
use crate::domain::machine::receiving;
use crate::domain::machine::sending;
use crate::domain::machine::settling;
use crate::domain::machine::shared;
use crate::domain::message::{
    DeadLetterReasonView, DeliveryOrigin, MessageState, RecordView, SequenceNumber,
};
use crate::domain::order;
use crate::domain::queue::QueueConfig;
use crate::domain::time::Timestamp;
use crate::storage;
use crate::storage::{Contents, OpView};

verus! {

// ---- what it is told in ----------------------------------------------------

/// Whether a message is locked, and its lock has ended.
pub open spec fn lock_has_ended(record: RecordView, now: Timestamp) -> bool {
    record.state matches MessageState::Locked { locked_until, .. } && locked_until.0 <= now.0
}

/// Whether the lock of a message was undone: the message is in the dead-letter queue if
/// its life has ended or it was delivered as often as its queue allows, and otherwise
/// back in the index it came from.
pub open spec fn is_undone(
    after: Contents,
    c: CommandView,
    config: QueueConfig,
    record: RecordView,
) -> bool {
    let ended = receiving::is_over(record, c.issued_at);
    let enough = settling::was_delivered_enough(c, config, record);
    &&& ended ==> receiving::is_buried(
        after,
        c,
        record,
        record.envelope,
        DeadLetterReasonView::TimeToLiveExpired,
        "the message exceeded its time to live"@,
    )
    &&& !ended && enough ==> receiving::is_buried(
        after,
        c,
        record,
        record.envelope,
        DeadLetterReasonView::MaxDeliveryCountExceeded,
        "the message reached its maximum delivery count"@,
    )
    &&& !ended && !enough ==> settling::is_back(
        after,
        c,
        record,
        record.envelope,
        record.state->Locked_origin,
    )
}

/// How many entries of the lock index lead to messages whose lock has ended and that are
/// to go to the dead-letter queue, or are not.
pub open spec fn how_many(
    m: Contents,
    c: CommandView,
    config: QueueConfig,
    entries: Seq<(Seq<u8>, Seq<u8>)>,
    to_be_buried: bool,
) -> nat
    decreases entries.len(),
{
    if entries.len() == 0 {
        0
    } else {
        let rest = how_many(m, c, config, entries.skip(1), to_be_buried);
        if keys::last_deadline(entries[0].0) matches Some((_, n)) && (settling::stored(
            m,
            c,
            n,
        ) matches Some(record) && lock_has_ended(record, c.issued_at) && to_be_buried == (
        receiving::is_over(record, c.issued_at) || settling::was_delivered_enough(
            c,
            config,
            record,
        ))) {
            rest + 1
        } else {
            rest
        }
    }
}

/// How many entries of the lifetime index have ended.
pub open spec fn how_many_ended(
    c: CommandView,
    entries: Seq<(Seq<u8>, Seq<u8>)>,
) -> nat
    decreases entries.len(),
{
    if entries.len() == 0 {
        0
    } else {
        let rest = how_many_ended(c, entries.skip(1));
        if progress::is_overdue(entries[0].0, c.issued_at) {
            rest + 1
        } else {
            rest
        }
    }
}

// ---- one entry at a time ---------------------------------------------------

/// Whether the entries that are overdue lead to messages of different numbers.
pub(crate) open spec fn numbers_differ(entries: Seq<(Seq<u8>, Seq<u8>)>) -> bool {
    forall|i: int, j: int|
        0 <= i < j < entries.len() ==> keys::last_deadline((#[trigger] entries[i]).0)->Some_0.1
            != keys::last_deadline((#[trigger] entries[j]).0)->Some_0.1
}

/// Whether nothing that is overdue comes behind something that is not.
pub(crate) open spec fn in_time(c: CommandView, entries: Seq<(Seq<u8>, Seq<u8>)>) -> bool {
    forall|i: int, j: int|
        0 <= j <= i < entries.len() && progress::is_overdue(
            (#[trigger] entries[i]).0,
            c.issued_at,
        ) ==> progress::is_overdue((#[trigger] entries[j]).0, c.issued_at)
}

/// Whether nothing that is overdue leads to a number.
pub(crate) open spec fn none_leads_to(
    c: CommandView,
    entries: Seq<(Seq<u8>, Seq<u8>)>,
    n: SequenceNumber,
) -> bool {
    forall|i: int|
        0 <= i < entries.len() && progress::is_overdue((#[trigger] entries[i]).0, c.issued_at)
            ==> keys::last_deadline(entries[i].0)->Some_0.1 != n
}

/// What holds of entries holds of all but the first.
pub(crate) proof fn the_rest_is_like_the_whole(
    c: CommandView,
    entries: Seq<(Seq<u8>, Seq<u8>)>,
    n: SequenceNumber,
)
    requires
        entries.len() > 0,
    ensures
        numbers_differ(entries) ==> numbers_differ(entries.skip(1)),
        numbers_differ(entries) ==> none_leads_to(
            c,
            entries.skip(1),
            keys::last_deadline(entries[0].0)->Some_0.1,
        ),
        in_time(c, entries) ==> in_time(c, entries.skip(1)),
        none_leads_to(c, entries, n) ==> none_leads_to(c, entries.skip(1), n),
{
    let rest = entries.skip(1);
    assert(forall|i: int| 0 <= i < rest.len() ==> rest[i] == entries[i + 1]);
    if numbers_differ(entries) {
        assert forall|i: int|
            0 <= i < rest.len() && progress::is_overdue(
                (#[trigger] rest[i]).0,
                c.issued_at,
            ) implies keys::last_deadline(rest[i].0)->Some_0.1 != keys::last_deadline(
            entries[0].0,
        )->Some_0.1 by {
            assert(rest[i] == entries[i + 1]);
        }
    }
}

/// The entries of an index of deadlines lead to different messages, the earliest first.
pub(crate) proof fn swept_entries_differ(m: Contents, c: CommandView, tag: u8)
    requires
        m.dom().finite(),
        places::indexed(m),
        places::proper(c.namespace, c.entity),
        tag == keys::TAG_LOCK || tag == keys::TAG_EXPIRY || tag == keys::TAG_SCHEDULED,
    ensures
        progress::all_timed(m, c, tag, progress::swept(m, c, tag)),
        numbers_differ(progress::swept(m, c, tag)),
        in_time(c, progress::swept(m, c, tag)),
{
    let prefix = keys::scope_key(tag, c.namespace, c.entity);
    let entries = progress::swept(m, c, tag);
    let walked = storage::walk(m, prefix, prefix);
    progress::swept_entries_are_timed(m, c, tag);
    storage::walk_lists_the_selected_keys(m, prefix, prefix);
    assert forall|i: int, j: int| 0 <= i < j < entries.len() implies keys::last_deadline(
        (#[trigger] entries[i]).0,
    )->Some_0.1 != keys::last_deadline((#[trigger] entries[j]).0)->Some_0.1 by {
        assert(places::is_timed(m, tag, c.namespace, c.entity, entries[i].0));
        assert(places::is_timed(m, tag, c.namespace, c.entity, entries[j].0));
        assert(bytes::lex_lt(walked[i], walked[j]));
        bytes::lex_irreflexive(walked[i]);
    }
}

// ---- locks -----------------------------------------------------------------

/// What undoing a lock adds to a batch.
spec fn undone(c: CommandView, config: QueueConfig, record: RecordView, batch: Seq<OpView>) -> Seq<
    OpView,
> {
    if receiving::is_over(record, c.issued_at) {
        shared::lifetime_over(c, record, batch)->Ok_0
    } else if settling::was_delivered_enough(c, config, record) {
        shared::deliveries_over(c, record, batch)->Ok_0
    } else {
        shared::returned(
            c,
            record,
            record.state->Locked_locked_until,
            record.state->Locked_origin,
            batch,
        )->Ok_0
    }
}

proof fn one_lock_is_undone(
    m: Contents,
    c: CommandView,
    config: QueueConfig,
    record: RecordView,
    batch: Seq<OpView>,
)
    requires
        orderly::orderly_record(record),
        machine::shadow_of(c.entity) is Ok,
        record.state is Locked,
        record.state->Locked_origin != DeliveryOrigin::Scheduled,
    ensures
        is_undone(
            storage::apply_ops(m, undone(c, config, record, batch)),
            c,
            config,
            record,
        ),
{
    orderly::descriptions_fit();
    if receiving::is_over(record, c.issued_at) {
        let reason = DeadLetterReasonView::TimeToLiveExpired;
        let description = "the message exceeded its time to live"@;
        orderly::dead_records_are_orderly(record, reason, description, c.issued_at);
        receiving::burials_bury(m, c, record, reason, description, batch);
    } else if settling::was_delivered_enough(c, config, record) {
        let reason = DeadLetterReasonView::MaxDeliveryCountExceeded;
        let description = "the message reached its maximum delivery count"@;
        orderly::dead_records_are_orderly(record, reason, description, c.issued_at);
        receiving::burials_bury(m, c, record, reason, description, batch);
    } else {
        settling::returns_bring_back(
            m,
            c,
            record,
            record.state->Locked_locked_until,
            record.state->Locked_origin,
            batch,
        );
    }
}

/// A message that goes back leaves other numbers alone.
proof fn returns_leave_others_alone(
    m: Contents,
    c: CommandView,
    record: RecordView,
    until: Timestamp,
    origin: DeliveryOrigin,
    batch: Seq<OpView>,
    n: SequenceNumber,
)
    requires
        n != record.sequence,
    ensures
        shared::returned(c, record, until, origin, batch) matches Ok(changes)
            ==> receiving::left_alone(
            storage::apply_ops(m, batch),
            storage::apply_ops(m, changes),
            c.namespace,
            n,
        ),
{
    broadcast use history::one_more_change;

    lifecycle::keys_begin_with_their_tags();
    receiving::numbers_tell_keys_apart(c.namespace, n, record.sequence);
}

proof fn one_lock_leaves_others_alone(
    m: Contents,
    c: CommandView,
    config: QueueConfig,
    record: RecordView,
    batch: Seq<OpView>,
    n: SequenceNumber,
)
    requires
        n != record.sequence,
        machine::shadow_of(c.entity) is Ok,
        record.state is Locked,
        record.state->Locked_origin != DeliveryOrigin::Scheduled,
    ensures
        receiving::left_alone(
            storage::apply_ops(m, batch),
            storage::apply_ops(m, undone(c, config, record, batch)),
            c.namespace,
            n,
        ),
{
    if receiving::is_over(record, c.issued_at) {
        receiving::burials_leave_others_alone(
            m,
            c,
            record,
            DeadLetterReasonView::TimeToLiveExpired,
            "the message exceeded its time to live"@,
            batch,
            n,
        );
    } else if settling::was_delivered_enough(c, config, record) {
        receiving::burials_leave_others_alone(
            m,
            c,
            record,
            DeadLetterReasonView::MaxDeliveryCountExceeded,
            "the message reached its maximum delivery count"@,
            batch,
            n,
        );
    } else {
        returns_leave_others_alone(
            m,
            c,
            record,
            record.state->Locked_locked_until,
            record.state->Locked_origin,
            batch,
            n,
        );
    }
}

/// What is undone stays so while its number is left alone.
proof fn the_undone_stay_undone(
    before: Contents,
    after: Contents,
    c: CommandView,
    config: QueueConfig,
    record: RecordView,
)
    requires
        is_undone(before, c, config, record),
        receiving::left_alone(before, after, c.namespace, record.sequence),
    ensures
        is_undone(after, c, config, record),
{
    let n = record.sequence;
    if receiving::is_over(record, c.issued_at) {
        receiving::the_buried_stay_buried(
            before,
            after,
            c,
            record,
            record.envelope,
            DeadLetterReasonView::TimeToLiveExpired,
            "the message exceeded its time to live"@,
        );
    } else if settling::was_delivered_enough(c, config, record) {
        receiving::the_buried_stay_buried(
            before,
            after,
            c,
            record,
            record.envelope,
            DeadLetterReasonView::MaxDeliveryCountExceeded,
            "the message reached its maximum delivery count"@,
        );
    } else {
        assert(lifecycle::agree_on(before, after, keys::message_key(c.namespace, c.entity, n)));
        assert(lifecycle::agree_on(before, after, keys::ready_key(c.namespace, c.entity, n)));
        assert(lifecycle::agree_on(before, after, keys::deferred_key(c.namespace, c.entity, n)));
        if let Some(id) = record.session_id {
            let key = keys::session_ready_key(c.namespace, c.entity, id, n);
            assert(lifecycle::agree_on(before, after, key));
        }
    }
}

/// The first lock is undone, and then the rest.
proof fn one_lock_at_a_time(
    m: Contents,
    c: CommandView,
    config: QueueConfig,
    locks: Seq<(Seq<u8>, Seq<u8>)>,
    batch: Seq<OpView>,
    returned: nat,
    dead: nat,
) -> (record: RecordView)
    requires
        orderly::orderly(m),
        progress::all_timed(m, c, keys::TAG_LOCK, locks),
        machine::shadow_of(c.entity) is Ok,
        locks.len() > 0,
        progress::is_overdue(locks[0].0, c.issued_at),
    ensures
        ({
            let n = keys::last_deadline(locks[0].0)->Some_0.1;
            let buried = receiving::is_over(record, c.issued_at)
                || settling::was_delivered_enough(c, config, record);
            &&& settling::stored(m, c, n) == Some(record)
            &&& record.sequence == n
            &&& orderly::orderly_record(record)
            &&& lock_has_ended(record, c.issued_at)
            &&& record.state->Locked_origin != DeliveryOrigin::Scheduled
            &&& expiry::undo_elapsed(m, c, config, locks, batch, returned, dead)
                == expiry::undo_elapsed(
                m,
                c,
                config,
                locks.skip(1),
                undone(c, config, record, batch),
                if buried {
                    returned
                } else {
                    returned + 1
                },
                if buried {
                    dead + 1
                } else {
                    dead
                },
            )
        }),
{
    progress::the_rest_is_timed(m, c, keys::TAG_LOCK, locks);
    let n = keys::last_deadline(locks[0].0)->Some_0.1;
    orderly::messages_stand_under_their_numbers(m, c.namespace, c.entity, n);
    settling::stored(m, c, n)->Some_0
}

proof fn undoing_leaves_others_alone(
    m: Contents,
    c: CommandView,
    config: QueueConfig,
    locks: Seq<(Seq<u8>, Seq<u8>)>,
    batch: Seq<OpView>,
    returned: nat,
    dead: nat,
    n: SequenceNumber,
)
    requires
        orderly::orderly(m),
        progress::all_timed(m, c, keys::TAG_LOCK, locks),
        machine::shadow_of(c.entity) is Ok,
        none_leads_to(c, locks, n),
    ensures
        expiry::undo_elapsed(m, c, config, locks, batch, returned, dead) matches Ok((changes, _))
            && receiving::left_alone(
            storage::apply_ops(m, batch),
            storage::apply_ops(m, changes),
            c.namespace,
            n,
        ),
    decreases locks.len(),
{
    if locks.len() > 0 {
        progress::the_rest_is_timed(m, c, keys::TAG_LOCK, locks);
        if progress::is_overdue(locks[0].0, c.issued_at) {
            let record = one_lock_at_a_time(m, c, config, locks, batch, returned, dead);
            let longer = undone(c, config, record, batch);
            let buried = receiving::is_over(record, c.issued_at)
                || settling::was_delivered_enough(c, config, record);
            let (r, d): (nat, nat) = if buried {
                (returned, dead + 1)
            } else {
                (returned + 1, dead)
            };
            the_rest_is_like_the_whole(c, locks, n);
            one_lock_leaves_others_alone(m, c, config, record, batch, n);
            undoing_leaves_others_alone(m, c, config, locks.skip(1), longer, r, d, n);
            let changes = expiry::undo_elapsed(
                m,
                c,
                config,
                locks.skip(1),
                longer,
                r,
                d,
            )->Ok_0.0;
            receiving::both_leave_alone(
                storage::apply_ops(m, batch),
                storage::apply_ops(m, longer),
                storage::apply_ops(m, changes),
                c.namespace,
                n,
            );
        }
    }
}

proof fn locks_are_undone_on_the_way(
    m: Contents,
    c: CommandView,
    config: QueueConfig,
    locks: Seq<(Seq<u8>, Seq<u8>)>,
    batch: Seq<OpView>,
    returned: nat,
    dead: nat,
    at: int,
)
    requires
        orderly::orderly(m),
        progress::all_timed(m, c, keys::TAG_LOCK, locks),
        machine::shadow_of(c.entity) is Ok,
        numbers_differ(locks),
        in_time(c, locks),
        0 <= at < locks.len(),
        progress::is_overdue(locks[at].0, c.issued_at),
    ensures
        expiry::undo_elapsed(m, c, config, locks, batch, returned, dead) matches Ok((changes, _))
            && is_undone(
            storage::apply_ops(m, changes),
            c,
            config,
            settling::stored(m, c, keys::last_deadline(locks[at].0)->Some_0.1)->Some_0,
        ),
    decreases locks.len(),
{
    assert(progress::is_overdue(locks[0].0, c.issued_at));
    let record = one_lock_at_a_time(m, c, config, locks, batch, returned, dead);
    let longer = undone(c, config, record, batch);
    let buried = receiving::is_over(record, c.issued_at) || settling::was_delivered_enough(
        c,
        config,
        record,
    );
    let (r, d): (nat, nat) = if buried {
        (returned, dead + 1)
    } else {
        (returned + 1, dead)
    };
    let rest = locks.skip(1);
    progress::the_rest_is_timed(m, c, keys::TAG_LOCK, locks);
    the_rest_is_like_the_whole(c, locks, record.sequence);
    if at == 0 {
        one_lock_is_undone(m, c, config, record, batch);
        undoing_leaves_others_alone(m, c, config, rest, longer, r, d, record.sequence);
        the_undone_stay_undone(
            storage::apply_ops(m, longer),
            storage::apply_ops(
                m,
                expiry::undo_elapsed(m, c, config, rest, longer, r, d)->Ok_0.0,
            ),
            c,
            config,
            record,
        );
    } else {
        assert(rest[at - 1] == locks[at]);
        locks_are_undone_on_the_way(m, c, config, rest, longer, r, d, at - 1);
    }
}

proof fn nothing_more_is_counted(
    m: Contents,
    c: CommandView,
    config: QueueConfig,
    locks: Seq<(Seq<u8>, Seq<u8>)>,
    to_be_buried: bool,
)
    requires
        progress::all_timed(m, c, keys::TAG_LOCK, locks),
        in_time(c, locks),
        locks.len() > 0 ==> !progress::is_overdue(locks[0].0, c.issued_at),
    ensures
        how_many(m, c, config, locks, to_be_buried) == 0,
    decreases locks.len(),
{
    if locks.len() > 0 {
        progress::the_rest_is_timed(m, c, keys::TAG_LOCK, locks);
        the_rest_is_like_the_whole(c, locks, SequenceNumber(0));
        let rest = locks.skip(1);
        if rest.len() > 0 {
            assert(rest[0] == locks[1]);
        }
        nothing_more_is_counted(m, c, config, rest, to_be_buried);
    }
}

proof fn undone_locks_are_counted(
    m: Contents,
    c: CommandView,
    config: QueueConfig,
    locks: Seq<(Seq<u8>, Seq<u8>)>,
    batch: Seq<OpView>,
    returned: nat,
    dead: nat,
)
    requires
        orderly::orderly(m),
        progress::all_timed(m, c, keys::TAG_LOCK, locks),
        in_time(c, locks),
        machine::shadow_of(c.entity) is Ok,
    ensures
        expiry::undo_elapsed(m, c, config, locks, batch, returned, dead) matches Ok((_, outcome))
            && outcome == (OutcomeView::LocksExpired {
            returned_to_ready: (returned + how_many(m, c, config, locks, false)) as u32,
            dead_lettered: (dead + how_many(m, c, config, locks, true)) as u32,
        }),
    decreases locks.len(),
{
    if locks.len() > 0 {
        progress::the_rest_is_timed(m, c, keys::TAG_LOCK, locks);
        if progress::is_overdue(locks[0].0, c.issued_at) {
            let record = one_lock_at_a_time(m, c, config, locks, batch, returned, dead);
            let longer = undone(c, config, record, batch);
            let buried = receiving::is_over(record, c.issued_at)
                || settling::was_delivered_enough(c, config, record);
            let (r, d): (nat, nat) = if buried {
                (returned, dead + 1)
            } else {
                (returned + 1, dead)
            };
            the_rest_is_like_the_whole(c, locks, record.sequence);
            undone_locks_are_counted(m, c, config, locks.skip(1), longer, r, d);
        } else {
            nothing_more_is_counted(m, c, config, locks, false);
            nothing_more_is_counted(m, c, config, locks, true);
        }
    }
}

/// The sweep finds its queue, and commits what it undoes.
proof fn lock_sweeps_take_their_step(m: Contents, c: CommandView) -> (config: QueueConfig)
    requires
        c.kind is ExpireLocks,
        machine::applied_time(m) matches Ok(time) && time.0 <= c.issued_at.0,
        sending::queue_named(m, c) is Some,
    ensures
        sending::queue_named(m, c) == Some(config),
        ({
            let step = expiry::undo_elapsed(
                m,
                c,
                config,
                progress::swept(m, c, keys::TAG_LOCK),
                Seq::empty(),
                0,
                0,
            );
            step matches Ok((changes, outcome)) ==> apply::applied(m, c) == (
                Ok::<OutcomeView, ErrorView>(outcome),
                apply::committed(m, changes, c.issued_at),
            )
        }),
{
    sending::queue_named(m, c)->Some_0
}

/// A message whose lock has ended comes out of it when the sweep comes by, which looks
/// at so many locks at a time. If its life has ended, or it was delivered as often as
/// the queue allows, it goes to the dead-letter queue with that reason. Otherwise it is
/// back in the index it came from.
pub proof fn ended_locks_are_undone(m: Contents, c: CommandView, n: SequenceNumber, i: int)
    requires
        m.dom().finite(),
        numbering::sound(m),
        orderly::orderly_command(c),
        c.kind is ExpireLocks,
        machine::applied_time(m) matches Ok(time) && time.0 <= c.issued_at.0,
        sending::queue_named(m, c) is Some,
        machine::shadow_of(c.entity) is Ok,
        settling::stored(m, c, n) matches Some(record) && lock_has_ended(record, c.issued_at),
        ({
            let prefix = keys::lock_prefix_key(c.namespace, c.entity);
            let until = settling::stored(m, c, n)->Some_0.state->Locked_locked_until;
            &&& 0 <= i < 256
            &&& i < storage::walk(m, prefix, prefix).len()
            &&& storage::walk(m, prefix, prefix)[i] == keys::lock_key(
                c.namespace,
                c.entity,
                until,
                n,
            )
        }),
    ensures
        ({
            let record = settling::stored(m, c, n)->Some_0;
            let after = apply::applied(m, c).1;
            &&& apply::applied(m, c).0 matches Ok(OutcomeView::LocksExpired { .. })
            &&& is_undone(after, c, sending::queue_named(m, c)->Some_0, record)
            &&& !after.dom().contains(
                keys::lock_key(
                    c.namespace,
                    c.entity,
                    record.state->Locked_locked_until,
                    n,
                ),
            )
        }),
{
    let record = settling::stored(m, c, n)->Some_0;
    let until = record.state->Locked_locked_until;
    let locks = progress::swept(m, c, keys::TAG_LOCK);
    let scope = keys::scope_key(keys::TAG_LOCK, c.namespace, c.entity);
    order::deadlines_read_back(scope, until, n);
    let config = lock_sweeps_take_their_step(m, c);
    swept_entries_differ(m, c, keys::TAG_LOCK);
    assert(locks[i].0 == keys::lock_key(c.namespace, c.entity, until, n));
    locks_are_undone_on_the_way(m, c, config, locks, Seq::empty(), 0, 0, i);
    progress::elapsed_locks_are_undone(m, c, i);
    progress::sweeps_succeed(m, c);
    let changes = expiry::undo_elapsed(m, c, config, locks, Seq::empty(), 0, 0)->Ok_0.0;
    orderly::messages_stand_under_their_numbers(m, c.namespace, c.entity, n);
    if changes.len() > 0 {
        receiving::the_clock_leaves_the_rest_alone(m, changes, c, n);
        the_undone_stay_undone(
            storage::apply_ops(m, changes),
            apply::applied(m, c).1,
            c,
            config,
            record,
        );
    }
}

/// The sweep for locks leaves every other message alone: those that are not locked, and
/// those whose lock still runs.
pub proof fn running_locks_are_left_alone(m: Contents, c: CommandView, n: SequenceNumber)
    requires
        m.dom().finite(),
        numbering::sound(m),
        orderly::orderly_command(c),
        c.kind is ExpireLocks,
        machine::applied_time(m) matches Ok(time) && time.0 <= c.issued_at.0,
        sending::queue_named(m, c) is Some,
        machine::shadow_of(c.entity) is Ok,
        settling::stored(m, c, n) matches Some(record) ==> !lock_has_ended(record, c.issued_at),
    ensures
        machine::message_at(apply::applied(m, c).1, c.namespace, c.entity, n)
            == machine::message_at(m, c.namespace, c.entity, n),
{
    let locks = progress::swept(m, c, keys::TAG_LOCK);
    let config = lock_sweeps_take_their_step(m, c);
    swept_entries_differ(m, c, keys::TAG_LOCK);
    assert forall|i: int|
        0 <= i < locks.len() && progress::is_overdue(
            (#[trigger] locks[i]).0,
            c.issued_at,
        ) implies keys::last_deadline(locks[i].0)->Some_0.1 != n by {
        assert(places::is_timed(m, keys::TAG_LOCK, c.namespace, c.entity, locks[i].0));
    }
    undoing_leaves_others_alone(m, c, config, locks, Seq::empty(), 0, 0, n);
    let changes = expiry::undo_elapsed(m, c, config, locks, Seq::empty(), 0, 0)->Ok_0.0;
    let key = keys::message_key(c.namespace, c.entity, n);
    assert(storage::apply_ops(m, Seq::empty()) == m);
    assert(lifecycle::agree_on(m, storage::apply_ops(m, changes), key));
    if changes.len() > 0 {
        receiving::the_clock_leaves_the_rest_alone(m, changes, c, n);
        assert(lifecycle::agree_on(
            storage::apply_ops(m, changes),
            apply::applied(m, c).1,
            key,
        ));
    }
}

/// The sweep for locks tells how many messages went back, and how many went to the
/// dead-letter queue.
pub proof fn undone_locks_are_told(m: Contents, c: CommandView)
    requires
        m.dom().finite(),
        numbering::sound(m),
        orderly::orderly_command(c),
        c.kind is ExpireLocks,
        machine::applied_time(m) matches Ok(time) && time.0 <= c.issued_at.0,
        sending::queue_named(m, c) is Some,
        machine::shadow_of(c.entity) is Ok,
    ensures
        ({
            let prefix = keys::lock_prefix_key(c.namespace, c.entity);
            let config = sending::queue_named(m, c)->Some_0;
            let locks = storage::scan(m, prefix, prefix, 256);
            apply::applied(m, c).0 == Ok::<OutcomeView, ErrorView>(
                OutcomeView::LocksExpired {
                    returned_to_ready: how_many(m, c, config, locks, false) as u32,
                    dead_lettered: how_many(m, c, config, locks, true) as u32,
                },
            )
        }),
{
    let config = lock_sweeps_take_their_step(m, c);
    swept_entries_differ(m, c, keys::TAG_LOCK);
    let locks = progress::swept(m, c, keys::TAG_LOCK);
    undone_locks_are_counted(m, c, config, locks, Seq::empty(), 0, 0);
}

// ---- lifetimes -------------------------------------------------------------

/// The first life ends, and then the rest.
proof fn one_life_at_a_time(
    m: Contents,
    c: CommandView,
    expiring: Seq<(Seq<u8>, Seq<u8>)>,
    batch: Seq<OpView>,
    dead: nat,
) -> (record: RecordView)
    requires
        orderly::orderly(m),
        progress::all_timed(m, c, keys::TAG_EXPIRY, expiring),
        machine::shadow_of(c.entity) is Ok,
        expiring.len() > 0,
        progress::is_overdue(expiring[0].0, c.issued_at),
    ensures
        ({
            let n = keys::last_deadline(expiring[0].0)->Some_0.1;
            &&& settling::stored(m, c, n) == Some(record)
            &&& record.sequence == n
            &&& orderly::orderly_record(record)
            &&& expiry::end_elapsed(m, c, expiring, batch, dead) == expiry::end_elapsed(
                m,
                c,
                expiring.skip(1),
                shared::lifetime_over(c, record, batch)->Ok_0,
                dead + 1,
            )
        }),
{
    progress::the_rest_is_timed(m, c, keys::TAG_EXPIRY, expiring);
    let n = keys::last_deadline(expiring[0].0)->Some_0.1;
    orderly::messages_stand_under_their_numbers(m, c.namespace, c.entity, n);
    settling::stored(m, c, n)->Some_0
}

proof fn ending_leaves_others_alone(
    m: Contents,
    c: CommandView,
    expiring: Seq<(Seq<u8>, Seq<u8>)>,
    batch: Seq<OpView>,
    dead: nat,
    n: SequenceNumber,
)
    requires
        orderly::orderly(m),
        progress::all_timed(m, c, keys::TAG_EXPIRY, expiring),
        machine::shadow_of(c.entity) is Ok,
        none_leads_to(c, expiring, n),
    ensures
        expiry::end_elapsed(m, c, expiring, batch, dead) matches Ok((changes, _))
            && receiving::left_alone(
            storage::apply_ops(m, batch),
            storage::apply_ops(m, changes),
            c.namespace,
            n,
        ),
    decreases expiring.len(),
{
    if expiring.len() > 0 {
        progress::the_rest_is_timed(m, c, keys::TAG_EXPIRY, expiring);
        if progress::is_overdue(expiring[0].0, c.issued_at) {
            let record = one_life_at_a_time(m, c, expiring, batch, dead);
            let longer = shared::lifetime_over(c, record, batch)->Ok_0;
            the_rest_is_like_the_whole(c, expiring, n);
            receiving::burials_leave_others_alone(
                m,
                c,
                record,
                DeadLetterReasonView::TimeToLiveExpired,
                "the message exceeded its time to live"@,
                batch,
                n,
            );
            ending_leaves_others_alone(m, c, expiring.skip(1), longer, dead + 1, n);
            receiving::both_leave_alone(
                storage::apply_ops(m, batch),
                storage::apply_ops(m, longer),
                storage::apply_ops(
                    m,
                    expiry::end_elapsed(m, c, expiring.skip(1), longer, dead + 1)->Ok_0.0,
                ),
                c.namespace,
                n,
            );
        }
    }
}

proof fn lives_are_ended_on_the_way(
    m: Contents,
    c: CommandView,
    expiring: Seq<(Seq<u8>, Seq<u8>)>,
    batch: Seq<OpView>,
    dead: nat,
    at: int,
)
    requires
        orderly::orderly(m),
        progress::all_timed(m, c, keys::TAG_EXPIRY, expiring),
        machine::shadow_of(c.entity) is Ok,
        numbers_differ(expiring),
        in_time(c, expiring),
        0 <= at < expiring.len(),
        progress::is_overdue(expiring[at].0, c.issued_at),
    ensures
        ({
            let n = keys::last_deadline(expiring[at].0)->Some_0.1;
            let record = settling::stored(m, c, n)->Some_0;
            &&& expiry::end_elapsed(m, c, expiring, batch, dead) matches Ok((changes, _))
            &&& receiving::is_buried(
                storage::apply_ops(m, changes),
                c,
                record,
                record.envelope,
                DeadLetterReasonView::TimeToLiveExpired,
                "the message exceeded its time to live"@,
            )
        }),
    decreases expiring.len(),
{
    assert(progress::is_overdue(expiring[0].0, c.issued_at));
    let record = one_life_at_a_time(m, c, expiring, batch, dead);
    let longer = shared::lifetime_over(c, record, batch)->Ok_0;
    let reason = DeadLetterReasonView::TimeToLiveExpired;
    let description = "the message exceeded its time to live"@;
    let rest = expiring.skip(1);
    progress::the_rest_is_timed(m, c, keys::TAG_EXPIRY, expiring);
    the_rest_is_like_the_whole(c, expiring, record.sequence);
    if at == 0 {
        orderly::descriptions_fit();
        orderly::dead_records_are_orderly(record, reason, description, c.issued_at);
        receiving::burials_bury(m, c, record, reason, description, batch);
        ending_leaves_others_alone(m, c, rest, longer, dead + 1, record.sequence);
        receiving::the_buried_stay_buried(
            storage::apply_ops(m, longer),
            storage::apply_ops(m, expiry::end_elapsed(m, c, rest, longer, dead + 1)->Ok_0.0),
            c,
            record,
            record.envelope,
            reason,
            description,
        );
    } else {
        assert(rest[at - 1] == expiring[at]);
        lives_are_ended_on_the_way(m, c, rest, longer, dead + 1, at - 1);
    }
}

proof fn ended_lives_are_counted(
    m: Contents,
    c: CommandView,
    expiring: Seq<(Seq<u8>, Seq<u8>)>,
    batch: Seq<OpView>,
    dead: nat,
)
    requires
        orderly::orderly(m),
        progress::all_timed(m, c, keys::TAG_EXPIRY, expiring),
        in_time(c, expiring),
        machine::shadow_of(c.entity) is Ok,
    ensures
        expiry::end_elapsed(m, c, expiring, batch, dead) matches Ok((_, outcome)) && outcome == (
        OutcomeView::MessagesExpired {
            dead_lettered: (dead + how_many_ended(c, expiring)) as u32,
        }),
        expiring.len() > 0 && !progress::is_overdue(expiring[0].0, c.issued_at)
            ==> how_many_ended(c, expiring) == 0,
    decreases expiring.len(),
{
    if expiring.len() > 0 {
        let rest = expiring.skip(1);
        progress::the_rest_is_timed(m, c, keys::TAG_EXPIRY, expiring);
        the_rest_is_like_the_whole(c, expiring, SequenceNumber(0));
        if progress::is_overdue(expiring[0].0, c.issued_at) {
            let record = one_life_at_a_time(m, c, expiring, batch, dead);
            let longer = shared::lifetime_over(c, record, batch)->Ok_0;
            ended_lives_are_counted(m, c, rest, longer, dead + 1);
        } else {
            ended_lives_are_counted(m, c, rest, batch, dead);
            if rest.len() > 0 {
                assert(rest[0] == expiring[1]);
                assert(!progress::is_overdue(expiring[1].0, c.issued_at));
            }
        }
    }
}

/// The sweep for lifetimes commits what it ends.
proof fn life_sweeps_take_their_step(m: Contents, c: CommandView)
    requires
        c.kind is ExpireMessages,
        machine::applied_time(m) matches Ok(time) && time.0 <= c.issued_at.0,
    ensures
        ({
            let step = expiry::end_elapsed(
                m,
                c,
                progress::swept(m, c, keys::TAG_EXPIRY),
                Seq::empty(),
                0,
            );
            step matches Ok((changes, outcome)) ==> apply::applied(m, c) == (
                Ok::<OutcomeView, ErrorView>(outcome),
                apply::committed(m, changes, c.issued_at),
            )
        }),
{
}

/// A ready message whose life has ended goes to the dead-letter queue, with that reason,
/// when the sweep comes by, which looks at so many lives at a time.
pub proof fn ended_lives_are_buried(m: Contents, c: CommandView, n: SequenceNumber, i: int)
    requires
        m.dom().finite(),
        numbering::sound(m),
        orderly::orderly_command(c),
        c.kind is ExpireMessages,
        machine::applied_time(m) matches Ok(time) && time.0 <= c.issued_at.0,
        machine::shadow_of(c.entity) is Ok,
        settling::stored(m, c, n) matches Some(record) && record.state is Ready
            && receiving::is_over(record, c.issued_at),
        ({
            let prefix = keys::expiry_prefix_key(c.namespace, c.entity);
            let at = settling::stored(m, c, n)->Some_0.expires_at->Some_0;
            &&& 0 <= i < 256
            &&& i < storage::walk(m, prefix, prefix).len()
            &&& storage::walk(m, prefix, prefix)[i] == keys::expiry_key(
                c.namespace,
                c.entity,
                at,
                n,
            )
        }),
    ensures
        ({
            let record = settling::stored(m, c, n)->Some_0;
            let after = apply::applied(m, c).1;
            &&& apply::applied(m, c).0 matches Ok(OutcomeView::MessagesExpired { .. })
            &&& receiving::is_buried(
                after,
                c,
                record,
                record.envelope,
                DeadLetterReasonView::TimeToLiveExpired,
                "the message exceeded its time to live"@,
            )
        }),
{
    let record = settling::stored(m, c, n)->Some_0;
    let at = record.expires_at->Some_0;
    let expiring = progress::swept(m, c, keys::TAG_EXPIRY);
    let scope = keys::scope_key(keys::TAG_EXPIRY, c.namespace, c.entity);
    order::deadlines_read_back(scope, at, n);
    life_sweeps_take_their_step(m, c);
    swept_entries_differ(m, c, keys::TAG_EXPIRY);
    assert(expiring[i].0 == keys::expiry_key(c.namespace, c.entity, at, n));
    lives_are_ended_on_the_way(m, c, expiring, Seq::empty(), 0, i);
    ended_lives_are_counted(m, c, expiring, Seq::empty(), 0);
    let changes = expiry::end_elapsed(m, c, expiring, Seq::empty(), 0)->Ok_0.0;
    orderly::messages_stand_under_their_numbers(m, c.namespace, c.entity, n);
    if changes.len() > 0 {
        receiving::the_clock_leaves_the_rest_alone(m, changes, c, n);
        receiving::the_buried_stay_buried(
            storage::apply_ops(m, changes),
            apply::applied(m, c).1,
            c,
            record,
            record.envelope,
            DeadLetterReasonView::TimeToLiveExpired,
            "the message exceeded its time to live"@,
        );
    }
}

/// The sweep for lifetimes leaves every other message alone: those whose life has not
/// ended, and those that are not ready.
pub proof fn lives_that_go_on_are_left_alone(m: Contents, c: CommandView, n: SequenceNumber)
    requires
        m.dom().finite(),
        numbering::sound(m),
        orderly::orderly_command(c),
        c.kind is ExpireMessages,
        machine::applied_time(m) matches Ok(time) && time.0 <= c.issued_at.0,
        machine::shadow_of(c.entity) is Ok,
        settling::stored(m, c, n) matches Some(record) ==> !(record.state is Ready
            && receiving::is_over(record, c.issued_at)),
    ensures
        machine::message_at(apply::applied(m, c).1, c.namespace, c.entity, n)
            == machine::message_at(m, c.namespace, c.entity, n),
{
    let expiring = progress::swept(m, c, keys::TAG_EXPIRY);
    life_sweeps_take_their_step(m, c);
    swept_entries_differ(m, c, keys::TAG_EXPIRY);
    assert forall|i: int|
        0 <= i < expiring.len() && progress::is_overdue(
            (#[trigger] expiring[i]).0,
            c.issued_at,
        ) implies keys::last_deadline(expiring[i].0)->Some_0.1 != n by {
        assert(places::is_timed(m, keys::TAG_EXPIRY, c.namespace, c.entity, expiring[i].0));
    }
    ending_leaves_others_alone(m, c, expiring, Seq::empty(), 0, n);
    let changes = expiry::end_elapsed(m, c, expiring, Seq::empty(), 0)->Ok_0.0;
    let key = keys::message_key(c.namespace, c.entity, n);
    assert(storage::apply_ops(m, Seq::empty()) == m);
    assert(lifecycle::agree_on(m, storage::apply_ops(m, changes), key));
    if changes.len() > 0 {
        receiving::the_clock_leaves_the_rest_alone(m, changes, c, n);
        assert(lifecycle::agree_on(
            storage::apply_ops(m, changes),
            apply::applied(m, c).1,
            key,
        ));
    }
}

/// The sweep for lifetimes tells how many messages went to the dead-letter queue.
pub proof fn ended_lives_are_told(m: Contents, c: CommandView)
    requires
        m.dom().finite(),
        numbering::sound(m),
        orderly::orderly_command(c),
        c.kind is ExpireMessages,
        machine::applied_time(m) matches Ok(time) && time.0 <= c.issued_at.0,
        machine::shadow_of(c.entity) is Ok,
    ensures
        ({
            let prefix = keys::expiry_prefix_key(c.namespace, c.entity);
            let expiring = storage::scan(m, prefix, prefix, 256);
            apply::applied(m, c).0 == Ok::<OutcomeView, ErrorView>(
                OutcomeView::MessagesExpired { dead_lettered: how_many_ended(c, expiring) as u32 },
            )
        }),
{
    life_sweeps_take_their_step(m, c);
    swept_entries_differ(m, c, keys::TAG_EXPIRY);
    ended_lives_are_counted(
        m,
        c,
        progress::swept(m, c, keys::TAG_EXPIRY),
        Seq::empty(),
        0,
    );
}

} // verus!
