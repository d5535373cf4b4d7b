//! What becomes of messages that wait until they are due: they become ready as they
//! were sent, or are cancelled before.

use vstd::prelude::*;

use crate::domain::codec;
use crate::domain::command::{CommandView, OutcomeView};
use crate::domain::error::ErrorView;
use crate::domain::identifier;
use crate::domain::keys;
use crate::domain::machine;
use crate::domain::machine::apply;
use crate::domain::machine::history;
use crate::domain::machine::lifecycle;
use crate::domain::machine::numbering;
use crate::domain::machine::orderly;
use crate::domain::machine::places;
use crate::domain::machine::progress;
use crate::domain::machine::receiving;
use crate::domain::machine::repeats;
use crate::domain::machine::scheduling;
use crate::domain::machine::sending;
use crate::domain::machine::settling;
use crate::domain::machine::shared;
use crate::domain::machine::sweeping;
use crate::domain::message;
use crate::domain::message::{MessageState, RecordView, SequenceNumber};
use crate::domain::order;
use crate::domain::queue;
use crate::domain::queue::QueueCounters;
use crate::domain::time::Timestamp;
use crate::storage;
use crate::storage::{Contents, OpView};

verus! {

// ---- what it is told in ----------------------------------------------------

/// Whether a message waits, and is due at a time.
pub open spec fn is_due(record: RecordView, now: Timestamp) -> bool {
    &&& record.state is Scheduled
    &&& record.scheduled_enqueue_at matches Some(at)
    &&& at.0 <= now.0
}

/// What is left of a life behind the time when a message is due.
pub open spec fn rest_of_life(end: Timestamp, due: Timestamp) -> u64 {
    if end.0 < due.0 {
        0
    } else {
        (end.0 - due.0) as u64
    }
}

/// Whether a message is ready as one that waited: with the same content in the same
/// session, under another number, and with the rest of its life from now on.
pub open spec fn is_awake(
    active: RecordView,
    waited: RecordView,
    number: SequenceNumber,
    now: Timestamp,
) -> bool {
    &&& active.sequence == number
    &&& active.message_id == waited.message_id
    &&& active.body == waited.body
    &&& active.session_id == waited.session_id
    &&& active.envelope == waited.envelope
    &&& active.scheduled_enqueue_at == waited.scheduled_enqueue_at
    &&& active.delivery_count == waited.delivery_count
    &&& active.dead_letter == waited.dead_letter
    &&& active.enqueued_at == now
    &&& active.state is Ready
    &&& waited.expires_at is None ==> active.expires_at is None
    &&& waited.expires_at matches Some(end) ==> active.expires_at == Some(
        sending::behind(now, rest_of_life(end, waited.scheduled_enqueue_at->Some_0)),
    )
}

/// Whether a message stands where receivers look for it, and its life is watched.
pub open spec fn is_in_the_ready_index(after: Contents, c: CommandView, record: RecordView) -> bool {
    let n = record.sequence;
    &&& record.session_id is None ==> after.dom().contains(
        keys::ready_key(c.namespace, c.entity, n),
    )
    &&& record.session_id matches Some(id) ==> after.dom().contains(
        keys::session_ready_key(c.namespace, c.entity, id, n),
    )
    &&& record.expires_at matches Some(at) ==> after.dom().contains(
        keys::expiry_key(c.namespace, c.entity, at, n),
    )
}

// ---- what is due -----------------------------------------------------------

/// Whether every entry leads to a number below another.
spec fn all_below(entries: Seq<(Seq<u8>, Seq<u8>)>, low: u64) -> bool {
    forall|i: int|
        0 <= i < entries.len() ==> keys::last_deadline((#[trigger] entries[i]).0)->Some_0.1.0 < low
}

/// What waking a message adds to a batch.
spec fn woken(
    c: CommandView,
    key: Seq<u8>,
    record: RecordView,
    next: u64,
    batch: Seq<OpView>,
) -> Seq<OpView> {
    scheduling::activated_changes(
        c,
        key,
        record.sequence,
        scheduling::active_record(
            record,
            record.scheduled_enqueue_at->Some_0,
            SequenceNumber(next),
            c.issued_at,
        ),
        batch,
    )
}

/// The first message wakes, and then the rest.
proof fn one_message_at_a_time(
    m: Contents,
    c: CommandView,
    due: Seq<(Seq<u8>, Seq<u8>)>,
    state: scheduling::ActivationState,
) -> (record: RecordView)
    requires
        orderly::orderly(m),
        progress::all_timed(m, c, keys::TAG_SCHEDULED, due),
        due.len() > 0,
        progress::is_overdue(due[0].0, c.issued_at),
    ensures
        ({
            let n = keys::last_deadline(due[0].0)->Some_0.1;
            &&& settling::stored(m, c, n) == Some(record)
            &&& record.sequence == n
            &&& orderly::orderly_record(record)
            &&& is_due(record, c.issued_at)
            &&& due[0].0 == keys::scheduled_key(
                c.namespace,
                c.entity,
                record.scheduled_enqueue_at->Some_0,
                n,
            )
            &&& scheduling::activate_due(m, c, due, state) == scheduling::activate_due(
                m,
                c,
                due.skip(1),
                (
                    woken(c, due[0].0, record, state.1, state.0),
                    queue::bump(state.1),
                    state.2 + 1,
                ),
            )
        }),
{
    progress::the_rest_is_timed(m, c, keys::TAG_SCHEDULED, due);
    let n = keys::last_deadline(due[0].0)->Some_0.1;
    orderly::messages_stand_under_their_numbers(m, c.namespace, c.entity, n);
    settling::stored(m, c, n)->Some_0
}

/// A message that wakes stands ready under its new number, and no more under the old
/// one.
proof fn one_message_wakes(
    m: Contents,
    c: CommandView,
    record: RecordView,
    next: u64,
    batch: Seq<OpView>,
)
    requires
        orderly::orderly_record(record),
        is_due(record, c.issued_at),
        record.sequence.0 < next,
    ensures
        ({
            let key = keys::scheduled_key(
                c.namespace,
                c.entity,
                record.scheduled_enqueue_at->Some_0,
                record.sequence,
            );
            let after = storage::apply_ops(m, woken(c, key, record, next, batch));
            &&& machine::message_at(
                after,
                c.namespace,
                c.entity,
                SequenceNumber(next),
            ) matches Ok(Some(active))
            &&& is_awake(active, record, SequenceNumber(next), c.issued_at)
            &&& machine::message_at(after, c.namespace, c.entity, record.sequence) == Ok::<
                Option<RecordView>,
                ErrorView,
            >(None)
        }),
{
    broadcast use history::one_more_change;

    lifecycle::keys_begin_with_their_tags();
    receiving::numbers_tell_keys_apart(c.namespace, SequenceNumber(next), record.sequence);
    let active = scheduling::active_record(
        record,
        record.scheduled_enqueue_at->Some_0,
        SequenceNumber(next),
        c.issued_at,
    );
    orderly::changed_records_are_orderly(record, active);
    message::stored_messages_read_back(active);
}

proof fn one_message_leaves_others_alone(
    m: Contents,
    c: CommandView,
    record: RecordView,
    next: u64,
    batch: Seq<OpView>,
    n: SequenceNumber,
)
    requires
        n != record.sequence,
        n.0 != next,
        record.scheduled_enqueue_at is Some,
    ensures
        ({
            let key = keys::scheduled_key(
                c.namespace,
                c.entity,
                record.scheduled_enqueue_at->Some_0,
                record.sequence,
            );
            receiving::left_alone(
                storage::apply_ops(m, batch),
                storage::apply_ops(m, woken(c, key, record, next, batch)),
                c.namespace,
                n,
            )
        }),
{
    broadcast use history::one_more_change;

    lifecycle::keys_begin_with_their_tags();
    receiving::numbers_tell_keys_apart(c.namespace, n, record.sequence);
    receiving::numbers_tell_keys_apart(c.namespace, n, SequenceNumber(next));
}

proof fn waking_leaves_others_alone(
    m: Contents,
    c: CommandView,
    due: Seq<(Seq<u8>, Seq<u8>)>,
    state: scheduling::ActivationState,
    n: SequenceNumber,
)
    requires
        orderly::orderly(m),
        progress::all_timed(m, c, keys::TAG_SCHEDULED, due),
        sweeping::none_leads_to(c, due, n),
        state.1 + due.len() <= u64::MAX,
        n.0 < state.1 || n.0 >= state.1 + due.len(),
    ensures
        scheduling::activate_due(m, c, due, state) matches Ok(next) && receiving::left_alone(
            storage::apply_ops(m, state.0),
            storage::apply_ops(m, next.0),
            c.namespace,
            n,
        ),
    decreases due.len(),
{
    if due.len() > 0 {
        progress::the_rest_is_timed(m, c, keys::TAG_SCHEDULED, due);
        if progress::is_overdue(due[0].0, c.issued_at) {
            let record = one_message_at_a_time(m, c, due, state);
            let longer = woken(c, due[0].0, record, state.1, state.0);
            let next = (longer, queue::bump(state.1), state.2 + 1);
            sweeping::the_rest_is_like_the_whole(c, due, n);
            one_message_leaves_others_alone(m, c, record, state.1, state.0, n);
            waking_leaves_others_alone(m, c, due.skip(1), next, n);
            receiving::both_leave_alone(
                storage::apply_ops(m, state.0),
                storage::apply_ops(m, longer),
                storage::apply_ops(
                    m,
                    scheduling::activate_due(m, c, due.skip(1), next)->Ok_0.0,
                ),
                c.namespace,
                n,
            );
        }
    }
}

proof fn messages_wake_on_the_way(
    m: Contents,
    c: CommandView,
    due: Seq<(Seq<u8>, Seq<u8>)>,
    state: scheduling::ActivationState,
    low: u64,
    at: int,
)
    requires
        orderly::orderly(m),
        progress::all_timed(m, c, keys::TAG_SCHEDULED, due),
        sweeping::numbers_differ(due),
        sweeping::in_time(c, due),
        all_below(due, low),
        low <= state.1,
        state.1 + due.len() <= u64::MAX,
        0 <= at < due.len(),
        progress::is_overdue(due[at].0, c.issued_at),
    ensures
        ({
            let n = keys::last_deadline(due[at].0)->Some_0.1;
            let record = settling::stored(m, c, n)->Some_0;
            let number = SequenceNumber((state.1 + at) as u64);
            &&& scheduling::activate_due(m, c, due, state) matches Ok(next)
            &&& machine::message_at(
                storage::apply_ops(m, next.0),
                c.namespace,
                c.entity,
                number,
            ) matches Ok(Some(active))
            &&& is_awake(active, record, number, c.issued_at)
            &&& machine::message_at(storage::apply_ops(m, next.0), c.namespace, c.entity, n)
                == Ok::<Option<RecordView>, ErrorView>(None)
        }),
    decreases due.len(),
{
    assert(progress::is_overdue(due[0].0, c.issued_at));
    let record = one_message_at_a_time(m, c, due, state);
    let n = record.sequence;
    let longer = woken(c, due[0].0, record, state.1, state.0);
    let next = (longer, queue::bump(state.1), state.2 + 1);
    let rest = due.skip(1);
    progress::the_rest_is_timed(m, c, keys::TAG_SCHEDULED, due);
    sweeping::the_rest_is_like_the_whole(c, due, n);
    assert forall|i: int| 0 <= i < rest.len() implies keys::last_deadline(
        (#[trigger] rest[i]).0,
    )->Some_0.1.0 < low by {
        assert(rest[i] == due[i + 1]);
    }
    if at == 0 {
        let number = SequenceNumber(state.1);
        assert(keys::last_deadline(due[0].0)->Some_0.1.0 < low);
        one_message_wakes(m, c, record, state.1, state.0);
        waking_leaves_others_alone(m, c, rest, next, n);
        waking_leaves_others_alone(m, c, rest, next, number);
        let before = storage::apply_ops(m, longer);
        let after = storage::apply_ops(m, scheduling::activate_due(m, c, rest, next)->Ok_0.0);
        assert(lifecycle::agree_on(before, after, keys::message_key(c.namespace, c.entity, n)));
        assert(lifecycle::agree_on(
            before,
            after,
            keys::message_key(c.namespace, c.entity, number),
        ));
    } else {
        assert(rest[at - 1] == due[at]);
        messages_wake_on_the_way(m, c, rest, next, low, at - 1);
    }
}

proof fn woken_messages_are_counted(
    m: Contents,
    c: CommandView,
    due: Seq<(Seq<u8>, Seq<u8>)>,
    state: scheduling::ActivationState,
)
    requires
        orderly::orderly(m),
        progress::all_timed(m, c, keys::TAG_SCHEDULED, due),
        sweeping::in_time(c, due),
        state.1 + due.len() <= u64::MAX,
    ensures
        scheduling::activate_due(m, c, due, state) matches Ok(next) && {
            &&& next.1 == state.1 + sweeping::how_many_ended(c, due)
            &&& next.2 == state.2 + sweeping::how_many_ended(c, due)
        },
        sweeping::how_many_ended(c, due) <= due.len(),
        due.len() > 0 && !progress::is_overdue(due[0].0, c.issued_at)
            ==> sweeping::how_many_ended(c, due) == 0,
    decreases due.len(),
{
    if due.len() > 0 {
        let rest = due.skip(1);
        progress::the_rest_is_timed(m, c, keys::TAG_SCHEDULED, due);
        sweeping::the_rest_is_like_the_whole(c, due, SequenceNumber(0));
        if progress::is_overdue(due[0].0, c.issued_at) {
            let record = one_message_at_a_time(m, c, due, state);
            let longer = woken(c, due[0].0, record, state.1, state.0);
            let next = (longer, queue::bump(state.1), state.2 + 1);
            woken_messages_are_counted(m, c, rest, next);
        } else {
            woken_messages_are_counted(m, c, rest, state);
            if rest.len() > 0 {
                assert(rest[0] == due[1]);
                assert(!progress::is_overdue(due[1].0, c.issued_at));
            }
        }
    }
}

/// What waits in a queue has a number that the queue has given out.
proof fn waiting_messages_have_smaller_numbers(m: Contents, c: CommandView)
    requires
        m.dom().finite(),
        numbering::sound(m),
        places::proper(c.namespace, c.entity),
    ensures
        all_below(
            progress::swept(m, c, keys::TAG_SCHEDULED),
            machine::next_number(m, c.namespace, c.entity),
        ),
{
    let due = progress::swept(m, c, keys::TAG_SCHEDULED);
    let low = machine::next_number(m, c.namespace, c.entity);
    let prefix = keys::scope_key(keys::TAG_SCHEDULED, c.namespace, c.entity);
    let walked = storage::walk(m, prefix, prefix);
    sweeping::swept_entries_differ(m, c, keys::TAG_SCHEDULED);
    storage::walk_lists_the_selected_keys(m, prefix, prefix);
    assert forall|i: int| 0 <= i < due.len() implies keys::last_deadline(
        (#[trigger] due[i]).0,
    )->Some_0.1.0 < low by {
        assert(places::is_timed(m, keys::TAG_SCHEDULED, c.namespace, c.entity, due[i].0));
        let (at, n) = keys::last_deadline(due[i].0)->Some_0;
        assert(walked.contains(walked[i]));
        assert(storage::selected(m, prefix, prefix).contains(walked[i]));
        assert(m.dom().contains(keys::scheduled_key(c.namespace, c.entity, at, n)));
        reveal(places::schedules_stand_in_queues);
        numbering::plain_entities_give_their_own_numbers(m, c.namespace, c.entity);
        if n.0 >= low {
            numbering::next_numbers_are_new(m, c.namespace, c.entity, c.entity, n);
        }
    }
}

/// The sweep for what is due commits what it wakes, and the numbers it has given out.
proof fn wakings_take_their_step(m: Contents, c: CommandView)
    requires
        orderly::orderly(m),
        c.kind is ActivateScheduled,
        machine::applied_time(m) matches Ok(time) && time.0 <= c.issued_at.0,
        sending::queue_named(m, c) is Some,
    ensures
        machine::counters_of(m, c) is Ok,
        ({
            let counters = machine::counters_of(m, c)->Ok_0;
            let low = machine::next_number(m, c.namespace, c.entity);
            let due = progress::swept(m, c, keys::TAG_SCHEDULED);
            &&& counters.next_sequence == low
            &&& scheduling::activate_due(m, c, due, (Seq::empty(), low, 0)) matches Ok(next) ==> {
                &&& apply::applied(m, c).0 == Ok::<OutcomeView, ErrorView>(
                    OutcomeView::ScheduledActivated { activated: next.2 as u32 },
                )
                &&& next.2 > 0 ==> apply::applied(m, c).1 == storage::apply_ops(
                    m,
                    next.0.push(counters_change(c, counters, next.1)).push(
                        apply::clock_change(c.issued_at),
                    ),
                )
                &&& next.2 == 0 ==> apply::applied(m, c).1 == apply::committed(
                    m,
                    next.0,
                    c.issued_at,
                )
            }
        }),
{
    orderly::clocks_and_counters_are_legible(m, c);
}

spec fn counters_change(c: CommandView, counters: QueueCounters, next: u64) -> OpView {
    shared::put(
        keys::queue_counters_key(c.namespace, c.entity),
        codec::encoded::<QueueCounters>(QueueCounters { next_sequence: next, ..counters }),
    )
}

/// Storing the counters and stepping the clock leaves every message alone.
proof fn counters_leave_the_rest_alone(
    m: Contents,
    changes: Seq<OpView>,
    c: CommandView,
    counters: QueueCounters,
    next: u64,
    n: SequenceNumber,
)
    ensures
        ({
            let after = storage::apply_ops(
                m,
                changes.push(counters_change(c, counters, next)).push(
                    apply::clock_change(c.issued_at),
                ),
            );
            &&& receiving::left_alone(storage::apply_ops(m, changes), after, c.namespace, n)
            &&& machine::next_number(after, c.namespace, c.entity) == next
        }),
{
    broadcast use history::one_more_change;

    lifecycle::keys_begin_with_their_tags();
    codec::stored_values_read_back::<QueueCounters>(
        QueueCounters { next_sequence: next, ..counters },
    );
}

/// A message that is due when the sweep comes by, which looks at so many at a time,
/// becomes ready under a new number: with the identifier, the body, the session and the
/// envelope that it waited with, and with the rest of its life counted from then on. It
/// waits no more under the old number.
pub proof fn due_messages_wake(m: Contents, c: CommandView, n: SequenceNumber, i: int)
    requires
        m.dom().finite(),
        numbering::sound(m),
        orderly::orderly_command(c),
        numbering::numbers_last(m, c),
        c.kind is ActivateScheduled,
        machine::applied_time(m) matches Ok(time) && time.0 <= c.issued_at.0,
        sending::queue_named(m, c) is Some,
        settling::stored(m, c, n) matches Some(record) && is_due(record, c.issued_at),
        ({
            let prefix = keys::scheduled_prefix_key(c.namespace, c.entity);
            let at = settling::stored(m, c, n)->Some_0.scheduled_enqueue_at->Some_0;
            &&& 0 <= i < 256
            &&& i < storage::walk(m, prefix, prefix).len()
            &&& storage::walk(m, prefix, prefix)[i] == keys::scheduled_key(
                c.namespace,
                c.entity,
                at,
                n,
            )
        }),
    ensures
        ({
            let waited = settling::stored(m, c, n)->Some_0;
            let after = apply::applied(m, c).1;
            let number = SequenceNumber(
                (machine::next_number(m, c.namespace, c.entity) + i) as u64,
            );
            &&& apply::applied(m, c).0 matches Ok(OutcomeView::ScheduledActivated { .. })
            &&& machine::message_at(m, c.namespace, c.entity, number) == Ok::<
                Option<RecordView>,
                ErrorView,
            >(None)
            &&& machine::message_at(after, c.namespace, c.entity, number) matches Ok(Some(active))
            &&& is_awake(active, waited, number, c.issued_at)
            &&& is_in_the_ready_index(after, c, active)
            &&& machine::message_at(after, c.namespace, c.entity, n) == Ok::<
                Option<RecordView>,
                ErrorView,
            >(None)
            &&& !after.dom().contains(
                keys::scheduled_key(
                    c.namespace,
                    c.entity,
                    waited.scheduled_enqueue_at->Some_0,
                    n,
                ),
            )
        }),
{
    let waited = settling::stored(m, c, n)->Some_0;
    let at = waited.scheduled_enqueue_at->Some_0;
    let due = progress::swept(m, c, keys::TAG_SCHEDULED);
    let low = machine::next_number(m, c.namespace, c.entity);
    let number = SequenceNumber((low + i) as u64);
    let scope = keys::scope_key(keys::TAG_SCHEDULED, c.namespace, c.entity);
    let state: scheduling::ActivationState = (Seq::empty(), low, 0);
    order::deadlines_read_back(scope, at, n);
    sweeping::swept_entries_differ(m, c, keys::TAG_SCHEDULED);
    waiting_messages_have_smaller_numbers(m, c);
    assert(due[i].0 == keys::scheduled_key(c.namespace, c.entity, at, n));
    messages_wake_on_the_way(m, c, due, state, low, i);
    woken_messages_are_counted(m, c, due, state);
    assert(sweeping::how_many_ended(c, due) > 0) by {
        if sweeping::how_many_ended(c, due) == 0 {
            assert(progress::is_overdue(due[0].0, c.issued_at));
        }
    }
    wakings_take_their_step(m, c);
    let counters = machine::counters_of(m, c)->Ok_0;
    let next = scheduling::activate_due(m, c, due, state)->Ok_0;
    let after = apply::applied(m, c).1;
    let before = storage::apply_ops(m, next.0);
    counters_leave_the_rest_alone(m, next.0, c, counters, next.1, n);
    counters_leave_the_rest_alone(m, next.0, c, counters, next.1, number);
    assert(lifecycle::agree_on(before, after, keys::message_key(c.namespace, c.entity, n)));
    assert(lifecycle::agree_on(before, after, keys::message_key(c.namespace, c.entity, number)));
    orderly::messages_stand_under_their_numbers(m, c.namespace, c.entity, number);
    numbers_to_come_are_free(m, c, at, n, number);
    progress::due_messages_are_activated(m, c, i);
    numbering::commands_keep_stores_sound(m, c);
    numbering::messages_stand_in_the_index_of_their_state(after, c.namespace, c.entity, number);
}

/// A number that a queue with waiting messages has not given out is free.
proof fn numbers_to_come_are_free(
    m: Contents,
    c: CommandView,
    at: Timestamp,
    n: SequenceNumber,
    number: SequenceNumber,
)
    requires
        m.dom().finite(),
        numbering::sound(m),
        places::proper(c.namespace, c.entity),
        places::message_in(m, c.namespace, c.entity, n) matches Some(record)
            && record.state is Scheduled && record.scheduled_enqueue_at == Some(at),
        number.0 >= machine::next_number(m, c.namespace, c.entity),
    ensures
        places::message_in(m, c.namespace, c.entity, number) is None,
{
    numbering::messages_stand_in_the_index_of_their_state(m, c.namespace, c.entity, n);
    assert(m.dom().contains(keys::scheduled_key(c.namespace, c.entity, at, n)));
    reveal(places::schedules_stand_in_queues);
    numbering::plain_entities_give_their_own_numbers(m, c.namespace, c.entity);
    numbering::next_numbers_are_new(m, c.namespace, c.entity, c.entity, number);
}

/// The sweep for what is due leaves every other message alone: those that are not due
/// yet, and those that do not wait.
pub proof fn others_wait_on(m: Contents, c: CommandView, n: SequenceNumber)
    requires
        m.dom().finite(),
        numbering::sound(m),
        orderly::orderly_command(c),
        numbering::numbers_last(m, c),
        c.kind is ActivateScheduled,
        machine::applied_time(m) matches Ok(time) && time.0 <= c.issued_at.0,
        sending::queue_named(m, c) is Some,
        n.0 < machine::next_number(m, c.namespace, c.entity),
        settling::stored(m, c, n) matches Some(record) ==> !is_due(record, c.issued_at),
    ensures
        machine::message_at(apply::applied(m, c).1, c.namespace, c.entity, n)
            == machine::message_at(m, c.namespace, c.entity, n),
{
    let due = progress::swept(m, c, keys::TAG_SCHEDULED);
    let low = machine::next_number(m, c.namespace, c.entity);
    let state: scheduling::ActivationState = (Seq::empty(), low, 0);
    sweeping::swept_entries_differ(m, c, keys::TAG_SCHEDULED);
    assert forall|i: int|
        0 <= i < due.len() && progress::is_overdue(
            (#[trigger] due[i]).0,
            c.issued_at,
        ) implies keys::last_deadline(due[i].0)->Some_0.1 != n by {
        assert(places::is_timed(m, keys::TAG_SCHEDULED, c.namespace, c.entity, due[i].0));
    }
    waking_leaves_others_alone(m, c, due, state, n);
    woken_messages_are_counted(m, c, due, state);
    wakings_take_their_step(m, c);
    let counters = machine::counters_of(m, c)->Ok_0;
    let next = scheduling::activate_due(m, c, due, state)->Ok_0;
    let before = storage::apply_ops(m, next.0);
    let after = apply::applied(m, c).1;
    let key = keys::message_key(c.namespace, c.entity, n);
    assert(storage::apply_ops(m, Seq::empty()) == m);
    assert(lifecycle::agree_on(m, before, key));
    if next.2 > 0 {
        counters_leave_the_rest_alone(m, next.0, c, counters, next.1, n);
        assert(lifecycle::agree_on(before, after, key));
    } else if next.0.len() > 0 {
        receiving::the_clock_leaves_the_rest_alone(m, next.0, c, n);
        assert(lifecycle::agree_on(before, after, key));
    }
}

/// The sweep tells how many messages have become ready, and as many numbers were given
/// out.
pub proof fn woken_messages_are_told(m: Contents, c: CommandView)
    requires
        m.dom().finite(),
        numbering::sound(m),
        orderly::orderly_command(c),
        numbering::numbers_last(m, c),
        c.kind is ActivateScheduled,
        machine::applied_time(m) matches Ok(time) && time.0 <= c.issued_at.0,
        sending::queue_named(m, c) is Some,
    ensures
        ({
            let prefix = keys::scheduled_prefix_key(c.namespace, c.entity);
            let count = sweeping::how_many_ended(c, storage::scan(m, prefix, prefix, 256));
            &&& apply::applied(m, c).0 == Ok::<OutcomeView, ErrorView>(
                OutcomeView::ScheduledActivated { activated: count as u32 },
            )
            &&& count > 0 ==> machine::next_number(
                apply::applied(m, c).1,
                c.namespace,
                c.entity,
            ) == machine::next_number(m, c.namespace, c.entity) + count
        }),
{
    let due = progress::swept(m, c, keys::TAG_SCHEDULED);
    let low = machine::next_number(m, c.namespace, c.entity);
    let state: scheduling::ActivationState = (Seq::empty(), low, 0);
    sweeping::swept_entries_differ(m, c, keys::TAG_SCHEDULED);
    woken_messages_are_counted(m, c, due, state);
    wakings_take_their_step(m, c);
    let counters = machine::counters_of(m, c)->Ok_0;
    let next = scheduling::activate_due(m, c, due, state)->Ok_0;
    counters_leave_the_rest_alone(m, next.0, c, counters, next.1, SequenceNumber(0));
}

// ---- what is cancelled -----------------------------------------------------

/// Whether a message waits under a number.
pub open spec fn waits(m: Contents, c: CommandView, n: SequenceNumber) -> bool {
    settling::stored(m, c, n) matches Some(record) && record.state is Scheduled
}

/// The times when messages are due that wait.
proof fn waiting_messages_have_times(
    m: Contents,
    c: CommandView,
    sequences: Seq<SequenceNumber>,
    i: int,
    found: Seq<Timestamp>,
)
    requires
        numbering::sound(m),
        places::proper(c.namespace, c.entity),
        0 <= i <= sequences.len(),
        found.len() == i,
        forall|j: int| 0 <= j < sequences.len() ==> waits(m, c, #[trigger] sequences[j]),
        forall|j: int|
            0 <= j < i ==> settling::stored(m, c, sequences[j])->Some_0.scheduled_enqueue_at
                == Some(#[trigger] found[j]),
    ensures
        scheduling::due_times(m, c, sequences, i, found) matches Ok(due) && {
            &&& due.len() == sequences.len()
            &&& forall|j: int|
                0 <= j < sequences.len() ==> settling::stored(
                    m,
                    c,
                    sequences[j],
                )->Some_0.scheduled_enqueue_at == Some(#[trigger] due[j])
        },
    decreases sequences.len() - i,
{
    if i < sequences.len() {
        let n = sequences[i];
        assert(waits(m, c, n));
        numbering::locked_messages_came_from_an_index(m, c.namespace, c.entity, n);
        let at = settling::stored(m, c, n)->Some_0.scheduled_enqueue_at->Some_0;
        waiting_messages_have_times(m, c, sequences, i + 1, found.push(at));
    }
}

proof fn removals_remove(
    m: Contents,
    c: CommandView,
    sequences: Seq<SequenceNumber>,
    due: Seq<Timestamp>,
    n: int,
    i: int,
)
    requires
        0 <= i < n <= sequences.len(),
        due.len() == sequences.len(),
    ensures
        ({
            let after = storage::apply_ops(
                m,
                scheduling::removed(c, sequences, due, n, Seq::empty()),
            );
            &&& !after.dom().contains(keys::message_key(c.namespace, c.entity, sequences[i]))
            &&& !after.dom().contains(
                keys::scheduled_key(c.namespace, c.entity, due[i], sequences[i]),
            )
        }),
    decreases n,
{
    broadcast use history::one_more_change;

    if i < n - 1 {
        removals_remove(m, c, sequences, due, n - 1, i);
    }
}

proof fn removals_leave_others_alone(
    m: Contents,
    c: CommandView,
    sequences: Seq<SequenceNumber>,
    due: Seq<Timestamp>,
    k: int,
    n: SequenceNumber,
)
    requires
        0 <= k <= sequences.len(),
        due.len() == sequences.len(),
        !sequences.contains(n),
    ensures
        lifecycle::agree_on(
            m,
            storage::apply_ops(m, scheduling::removed(c, sequences, due, k, Seq::empty())),
            keys::message_key(c.namespace, c.entity, n),
        ),
        k > 0 ==> scheduling::removed(c, sequences, due, k, Seq::empty()).len() > 0,
    decreases k,
{
    broadcast use history::one_more_change;

    assert(storage::apply_ops(m, Seq::empty()) == m);
    if k > 0 {
        lifecycle::keys_begin_with_their_tags();
        assert(sequences[k - 1] != n);
        receiving::numbers_tell_keys_apart(c.namespace, n, sequences[k - 1]);
        removals_leave_others_alone(m, c, sequences, due, k - 1, n);
    }
}

/// Messages that wait are cancelled together: they are gone, and so is what would have
/// woken them. All others stay.
pub proof fn waiting_messages_are_cancelled(m: Contents, c: CommandView, n: SequenceNumber)
    requires
        numbering::sound(m),
        orderly::orderly_command(c),
        c.kind is CancelScheduled,
        machine::applied_time(m) matches Ok(time) && time.0 <= c.issued_at.0,
        sending::queue_named(m, c) is Some,
        !identifier::names_dead_letter_queue(c.entity),
        ({
            let sequences = c.kind->CancelScheduled_sequences;
            &&& 0 < sequences.len() <= 0xffff_ffff
            &&& forall|j: int| 0 <= j < sequences.len() ==> waits(m, c, #[trigger] sequences[j])
            &&& forall|i: int, j: int|
                0 <= i < j < sequences.len() ==> sequences[i] != sequences[j]
        }),
    ensures
        ({
            let sequences = c.kind->CancelScheduled_sequences;
            let after = apply::applied(m, c).1;
            &&& apply::applied(m, c).0 == Ok::<OutcomeView, ErrorView>(
                OutcomeView::ScheduledCancelled { cancelled: sequences.len() as u32 },
            )
            &&& sequences.contains(n) ==> {
                let at = settling::stored(m, c, n)->Some_0.scheduled_enqueue_at;
                &&& machine::message_at(after, c.namespace, c.entity, n) == Ok::<
                    Option<RecordView>,
                    ErrorView,
                >(None)
                &&& at is Some
                &&& !after.dom().contains(
                    keys::scheduled_key(c.namespace, c.entity, at->Some_0, n),
                )
            }
            &&& !sequences.contains(n) ==> machine::message_at(after, c.namespace, c.entity, n)
                == machine::message_at(m, c.namespace, c.entity, n)
        }),
{
    let sequences = c.kind->CancelScheduled_sequences;
    let len = sequences.len() as int;
    repeats::without_repeat_all_differ(sequences);
    waiting_messages_have_times(m, c, sequences, 0, Seq::empty());
    let due = scheduling::due_times(m, c, sequences, 0, Seq::empty())->Ok_0;
    let changes = scheduling::removed(c, sequences, due, len, Seq::empty());
    assert(changes.len() > 0);
    history::one_more_change(m, changes, apply::clock_change(c.issued_at));
    lifecycle::keys_begin_with_their_tags();
    if sequences.contains(n) {
        let i = choose|i: int| 0 <= i < sequences.len() && sequences[i] == n;
        removals_remove(m, c, sequences, due, len, i);
        assert(settling::stored(m, c, sequences[i])->Some_0.scheduled_enqueue_at == Some(due[i]));
    } else {
        removals_leave_others_alone(m, c, sequences, due, len, n);
    }
}

/// A cancellation that names no message, or one of them twice, or any that does not
/// wait, is refused and cancels nothing.
pub proof fn other_cancellations_are_refused(m: Contents, c: CommandView, i: int)
    requires
        numbering::sound(m),
        orderly::orderly_command(c),
        c.kind is CancelScheduled,
        machine::applied_time(m) matches Ok(time) && time.0 <= c.issued_at.0,
    ensures
        ({
            let sequences = c.kind->CancelScheduled_sequences;
            let applied = apply::applied(m, c);
            let differ = forall|i: int, j: int|
                0 <= i < j < sequences.len() ==> sequences[i] != sequences[j];
            &&& sequences.len() == 0 ==> applied == (
                Err::<OutcomeView, ErrorView>(ErrorView::EmptyScheduledCancellation),
                m,
            )
            &&& !differ ==> applied.1 == m && (applied.0 matches Err(
                ErrorView::DuplicateScheduledSequence { sequence },
            ) && repeats::is_named_twice(sequences, sequence))
            &&& sequences.len() > 0 && differ && identifier::names_dead_letter_queue(c.entity)
                ==> applied == (
                Err::<OutcomeView, ErrorView>(ErrorView::DeadLetterQueueIsReserved),
                m,
            )
            &&& differ && !identifier::names_dead_letter_queue(c.entity) && sending::queue_named(
                m,
                c,
            ) is Some && 0 <= i < sequences.len() && (forall|j: int|
                0 <= j < i ==> waits(m, c, #[trigger] sequences[j])) && !waits(m, c, sequences[i])
                ==> applied == (
                Err::<OutcomeView, ErrorView>(
                    if settling::stored(m, c, sequences[i]) is None {
                        ErrorView::MessageNotFound { sequence: sequences[i] }
                    } else {
                        ErrorView::MessageNotScheduled { sequence: sequences[i] }
                    },
                ),
                m,
            )
        }),
{
    let sequences = c.kind->CancelScheduled_sequences;
    repeats::without_repeat_all_differ(sequences);
    repeats::what_repeats_is_named_twice(sequences);
    if 0 <= i < sequences.len() && (forall|j: int|
        0 <= j < i ==> waits(m, c, #[trigger] sequences[j])) && !waits(m, c, sequences[i]) {
        the_first_that_does_not_wait_stops(m, c, sequences, 0, Seq::empty(), i);
    }
}

proof fn the_first_that_does_not_wait_stops(
    m: Contents,
    c: CommandView,
    sequences: Seq<SequenceNumber>,
    i: int,
    found: Seq<Timestamp>,
    at: int,
)
    requires
        numbering::sound(m),
        places::proper(c.namespace, c.entity),
        0 <= i <= at < sequences.len(),
        forall|j: int| 0 <= j < at ==> waits(m, c, #[trigger] sequences[j]),
        !waits(m, c, sequences[at]),
    ensures
        scheduling::due_times(m, c, sequences, i, found) == Err::<Seq<Timestamp>, ErrorView>(
            if settling::stored(m, c, sequences[at]) is None {
                ErrorView::MessageNotFound { sequence: sequences[at] }
            } else {
                ErrorView::MessageNotScheduled { sequence: sequences[at] }
            },
        ),
    decreases at - i,
{
    let n = sequences[i];
    orderly::messages_stand_under_their_numbers(m, c.namespace, c.entity, n);
    if i < at {
        assert(waits(m, c, n));
        numbering::locked_messages_came_from_an_index(m, c.namespace, c.entity, n);
        let when = settling::stored(m, c, n)->Some_0.scheduled_enqueue_at->Some_0;
        the_first_that_does_not_wait_stops(m, c, sequences, i + 1, found.push(when), at);
    }
}

} // verus!
