//! What a broker owes: messages that are ready are handed out, and what is overdue
//! is dealt with.

use vstd::prelude::*;

use crate::bytes;
use crate::domain::codec;
use crate::domain::codec::CodecError;
use crate::domain::command::{CommandView, OutcomeView};
use crate::domain::error::ErrorView;
use crate::domain::identifier;
use crate::domain::keys;
use crate::domain::machine;
use crate::domain::machine::apply;
use crate::domain::machine::delivery;
use crate::domain::machine::expiry;
use crate::domain::machine::history;
use crate::domain::machine::lifecycle;
use crate::domain::machine::numbering;
use crate::domain::machine::orderly;
use crate::domain::machine::peek;
use crate::domain::machine::places;
use crate::domain::machine::scheduling;
use crate::domain::machine::send;
use crate::domain::machine::sessions;
use crate::domain::machine::shared;
use crate::domain::message;
use crate::domain::message::{
    DeadLetterReasonView, DeliveryOrigin, DeliveryView, MessageState, ReceiveMode, RecordView,
    SequenceNumber,
};
use crate::domain::order;
use crate::domain::queue;
use crate::domain::queue::QueueConfig;
use crate::domain::session;
use crate::domain::session::AcceptedView;
use crate::domain::time;
use crate::domain::time::Timestamp;
use crate::storage;
use crate::storage::{Contents, OpView};

verus! {

// ---- receiving -------------------------------------------------------------

/// The session that a receive names.
pub open spec fn session_named(c: CommandView) -> Option<Seq<char>> {
    match c.kind->Receive_session {
        Some(hold) => Some(hold.session_id),
        None => None,
    }
}

/// Whether a receive is one that a queue serves: the queue exists, and if it has
/// sessions the receiver holds the one it names.
pub open spec fn is_served(m: Contents, c: CommandView) -> bool {
    &&& c.kind is Receive
    &&& delivery::receivable(m, c) matches Ok(config)
    &&& shared::session_fault(config, c.kind->Receive_session is Some) is None
    &&& c.kind->Receive_session matches Some(hold) ==> shared::held_session(m, c, hold) is Ok
}

/// Whether a message is one that a receive looks for.
pub open spec fn is_ready_for(m: Contents, c: CommandView, n: SequenceNumber) -> bool {
    places::message_in(m, c.namespace, c.entity, n) matches Some(record) && record.state is Ready
        && record.session_id == session_named(c)
}

/// The first of the messages that a receive looks for is handed out, unless it has
/// outlived its lifetime.
pub proof fn ready_messages_are_handed_out(m: Contents, c: CommandView, n: SequenceNumber)
    requires
        m.dom().finite(),
        numbering::sound(m),
        places::proper(c.namespace, c.entity),
        session_named(c) matches Some(id) ==> order::clean(id),
        is_served(m, c),
        machine::applied_time(m)->Ok_0.0 <= c.issued_at.0,
        is_ready_for(m, c, n),
        forall|earlier: SequenceNumber|
            earlier.0 < n.0 ==> !#[trigger] is_ready_for(m, c, earlier),
        !message::expired(
            places::message_in(m, c.namespace, c.entity, n)->Some_0,
            c.issued_at,
        ),
    ensures
        ({
            let record = places::message_in(m, c.namespace, c.entity, n)->Some_0;
            &&& apply::applied(m, c).0 matches Ok(OutcomeView::Received(Some(received)))
            &&& received.sequence == n
            &&& received.message_id == record.message_id
            &&& received.body == record.body
            &&& received.envelope == record.envelope
            &&& received.session_id == record.session_id
        }),
{
    let record = places::message_in(m, c.namespace, c.entity, n)->Some_0;
    let session = session_named(c);
    let prefix = lifecycle::ready_prefix(c, c.kind->Receive_session);
    let key = keys::numbered(prefix, n.0);
    orderly::clocks_and_counters_are_legible(m, c);
    orderly::ready_indexes_hold_numbers_alone(m, c.namespace, c.entity, session);
    numbering::messages_stand_in_the_index_of_their_state(m, c.namespace, c.entity, n);
    assert(m.dom().contains(key));
    storage::walk_lists_the_selected_keys(m, prefix, prefix);
    let walked = storage::walk(m, prefix, prefix);
    lies_below(prefix, n.0);
    assert(storage::selected(m, prefix, prefix).contains(key));
    assert(walked.contains(key));
    let i = choose|i: int| 0 <= i < walked.len() && walked[i] == key;
    let first = walked[0];
    assert(walked.contains(first));
    assert(storage::selected(m, prefix, prefix).contains(first));
    let x = choose|x: u64| first == keys::numbered(prefix, x);
    places::ready_entries_lead_to_ready_messages(
        m,
        c.namespace,
        c.entity,
        session,
        SequenceNumber(x),
    );
    assert(is_ready_for(m, c, SequenceNumber(x)));
    order::numbers_sort(prefix, x, n.0);
    if i > 0 {
        assert(bytes::lex_lt(walked[0], walked[i]));
    }
    assert(first == key);
    let ready = storage::scan(m, prefix, prefix, machine::MAX_RECEIVE_SCAN);
    assert(ready[0].0 == key);
    order::sequences_read_back(prefix, n);
    assert(machine::message_at(m, c.namespace, c.entity, n) == Ok::<Option<RecordView>, ErrorView>(
        Some(record),
    ));
    let received = apply::applied(m, c).0->Ok_0->Received_0->Some_0;
    assert(apply::applied(m, c).0 == Ok::<OutcomeView, ErrorView>(
        OutcomeView::Received(Some(received)),
    ));
    assert(received.sequence == n);
    lifecycle::deliveries_carry_what_was_stored(m, c, received);
}

/// Whether every entry leads to a message.
spec fn all_lead(m: Contents, c: CommandView, ready: Seq<(Seq<u8>, Seq<u8>)>) -> bool {
    forall|i: int|
        0 <= i < ready.len() ==> (keys::last_sequence((#[trigger] ready[i]).0) matches Some(n)
            && machine::message_at(m, c.namespace, c.entity, n) matches Ok(Some(_)))
}

proof fn receiving_succeeds(
    m: Contents,
    c: CommandView,
    config: QueueConfig,
    mode: ReceiveMode,
    asked: Option<u64>,
    ready: Seq<(Seq<u8>, Seq<u8>)>,
    batch: Seq<OpView>,
)
    requires
        all_lead(m, c, ready),
        machine::shadow_of(c.entity) is Ok,
        machine::counters_of(m, c) is Ok,
    ensures
        delivery::receive_from(m, c, config, mode, asked, ready, batch) matches Ok((_, outcome))
            && outcome is Received,
    decreases ready.len(),
{
    if ready.len() > 0 {
        let rest = ready.skip(1);
        let n = keys::last_sequence(ready[0].0)->Some_0;
        let record = machine::message_at(m, c.namespace, c.entity, n)->Ok_0->Some_0;
        assert(keys::last_sequence(ready[0].0) is Some);
        if message::expired(record, c.issued_at) {
            assert forall|i: int| 0 <= i < rest.len() implies (keys::last_sequence(
                (#[trigger] rest[i]).0,
            ) matches Some(n) && machine::message_at(m, c.namespace, c.entity, n) matches Ok(
                Some(_),
            )) by {
                assert(rest[i] == ready[i + 1]);
            }
            let longer = shared::lifetime_over(c, record, batch)->Ok_0;
            receiving_succeeds(m, c, config, mode, asked, rest, longer);
        }
    }
}

/// A receive that a queue serves succeeds: it is never kept from a message, or from
/// the news that there is none, by what the store holds.
pub proof fn receives_succeed(m: Contents, c: CommandView)
    requires
        m.dom().finite(),
        numbering::sound(m),
        places::proper(c.namespace, c.entity),
        session_named(c) matches Some(id) ==> order::clean(id),
        is_served(m, c),
        machine::applied_time(m)->Ok_0.0 <= c.issued_at.0,
        machine::shadow_of(c.entity) is Ok,
    ensures
        apply::applied(m, c).0 matches Ok(OutcomeView::Received(_)),
{
    let session = session_named(c);
    let prefix = lifecycle::ready_prefix(c, c.kind->Receive_session);
    let config = delivery::receivable(m, c)->Ok_0;
    let ready = storage::scan(m, prefix, prefix, machine::MAX_RECEIVE_SCAN);
    orderly::clocks_and_counters_are_legible(m, c);
    orderly::ready_indexes_hold_numbers_alone(m, c.namespace, c.entity, session);
    storage::walk_lists_the_selected_keys(m, prefix, prefix);
    let walked = storage::walk(m, prefix, prefix);
    assert forall|i: int| 0 <= i < ready.len() implies (keys::last_sequence(
        (#[trigger] ready[i]).0,
    ) matches Some(n) && machine::message_at(m, c.namespace, c.entity, n) matches Ok(Some(_))) by {
        let key = walked[i];
        assert(walked.contains(key));
        assert(storage::selected(m, prefix, prefix).contains(key));
        let n = choose|n: u64| key == keys::numbered(prefix, n);
        order::sequences_read_back(prefix, SequenceNumber(n));
        places::ready_entries_lead_to_ready_messages(
            m,
            c.namespace,
            c.entity,
            session,
            SequenceNumber(n),
        );
    }
    receiving_succeeds(
        m,
        c,
        config,
        c.kind->Receive_mode,
        c.kind->Receive_lock_duration_millis,
        ready,
        Seq::empty(),
    );
}

pub(crate) proof fn lies_below(prefix: Seq<u8>, n: u64)
    ensures
        bytes::has_prefix(keys::numbered(prefix, n), prefix),
        bytes::lex_le(prefix, keys::numbered(prefix, n)),
{
    let key = keys::numbered(prefix, n);
    assert(key.subrange(0, prefix.len() as int) =~= prefix);
    bytes::be_len(n as nat, 8);
    assert(bytes::parts_below(prefix, key, prefix.len() as int));
}

/// What was sent is what is received: a message that is sent to a queue where
/// nothing else is ready is the next that a receiver of its session gets, as long
/// as its lifetime runs.
pub proof fn sent_messages_are_received(
    m: Contents,
    c: CommandView,
    sequence: SequenceNumber,
    receive: CommandView,
)
    requires
        m.dom().finite(),
        numbering::sound(m),
        orderly::orderly_command(c),
        numbering::numbers_last(m, c),
        lifecycle::sends_to_queue(m, c),
        apply::applied(m, c).0 == Ok::<OutcomeView, ErrorView>(OutcomeView::Sent { sequence }),
        c.kind->Send_scheduled_enqueue_at is None,
        receive.namespace == c.namespace,
        receive.entity == c.entity,
        is_served(apply::applied(m, c).1, receive),
        session_named(receive) == c.kind->Send_session_id,
        c.issued_at.0 <= receive.issued_at.0,
        forall|n: SequenceNumber| !#[trigger] is_ready_for(m, receive, n),
        !message::expired(
            lifecycle::sent_record(c, machine::config_of(m, c)->Ok_0, sequence),
            receive.issued_at,
        ),
    ensures
        apply::applied(apply::applied(m, c).1, receive).0 matches Ok(
            OutcomeView::Received(Some(received)),
        ) && received.sequence == sequence && received.message_id == c.kind->Send_message_id
            && received.body == c.kind->Send_body && received.envelope == message::kept(
            c.kind->Send_envelope,
        )
            && received.session_id == c.kind->Send_session_id,
{
    let after = apply::applied(m, c).1;
    let config = machine::config_of(m, c)->Ok_0;
    let record = lifecycle::sent_record(c, config, sequence);
    numbering::commands_keep_stores_sound(m, c);
    history::a_store_stays_finite(m, c);
    orderly::new_records_are_orderly(
        c,
        lifecycle::sent_input(c),
        sequence,
        send::effective_lifetime(
            c.kind->Send_time_to_live_millis,
            config.default_time_to_live_millis,
        ),
    );
    lifecycle::sent_messages_are_stored(m, c, sequence);
    assert(is_ready_for(after, receive, sequence));
    assert forall|earlier: SequenceNumber| earlier.0 < sequence.0 implies !#[trigger] is_ready_for(
        after,
        receive,
        earlier,
    ) by {
        assert(machine::message_at(after, c.namespace, c.entity, earlier) == machine::message_at(
            m,
            c.namespace,
            c.entity,
            earlier,
        ));
        assert(!is_ready_for(m, receive, earlier));
    }
    history::the_clock_never_goes_back(m, c);
    codec::stored_values_read_back::<Timestamp>(c.issued_at);
    assert(session_named(receive) matches Some(id) ==> order::clean(id));
    ready_messages_are_handed_out(after, receive, sequence);
}

// ---- what is overdue -------------------------------------------------------

/// Whether an entry of an index of deadlines is overdue.
pub open spec fn is_overdue(key: Seq<u8>, now: Timestamp) -> bool {
    keys::last_deadline(key) matches Some((at, _)) && at.0 <= now.0
}

/// Whether no key of a kind has come with the changes behind a batch.
spec fn nothing_comes(m: Contents, batch: Seq<OpView>, longer: Seq<OpView>, tag: u8) -> bool {
    forall|key: Seq<u8>|
        key.len() > 0 && key[0] == tag && !storage::apply_ops(m, batch).dom().contains(key)
            ==> !(#[trigger] storage::apply_ops(m, longer).dom().contains(key))
}

/// Whether the entries that are overdue are gone, up to the first that is not.
spec fn overdue_is_gone(
    m: Contents,
    c: CommandView,
    entries: Seq<(Seq<u8>, Seq<u8>)>,
    changes: Seq<OpView>,
) -> bool {
    forall|i: int|
        0 <= i < entries.len() && (forall|j: int|
            0 <= j <= i ==> is_overdue((#[trigger] entries[j]).0, c.issued_at))
            ==> !storage::apply_ops(m, changes).dom().contains((#[trigger] entries[i]).0)
}

/// Whether every entry leads to its message.
pub(crate) open spec fn all_timed(
    m: Contents,
    c: CommandView,
    tag: u8,
    entries: Seq<(Seq<u8>, Seq<u8>)>,
) -> bool {
    forall|i: int|
        0 <= i < entries.len() ==> places::is_timed(
            m,
            tag,
            c.namespace,
            c.entity,
            (#[trigger] entries[i]).0,
        )
}

pub(crate) proof fn the_rest_is_timed(
    m: Contents,
    c: CommandView,
    tag: u8,
    entries: Seq<(Seq<u8>, Seq<u8>)>,
)
    requires
        all_timed(m, c, tag, entries),
        entries.len() > 0,
    ensures
        all_timed(m, c, tag, entries.skip(1)),
        places::is_timed(m, tag, c.namespace, c.entity, entries[0].0),
{
    let rest = entries.skip(1);
    assert forall|i: int| 0 <= i < rest.len() implies places::is_timed(
        m,
        tag,
        c.namespace,
        c.entity,
        (#[trigger] rest[i]).0,
    ) by {
        assert(rest[i] == entries[i + 1]);
    }
}

/// One entry goes, and the rest of them behind it.
proof fn one_goes_and_the_rest(
    m: Contents,
    c: CommandView,
    tag: u8,
    entries: Seq<(Seq<u8>, Seq<u8>)>,
    batch: Seq<OpView>,
    longer: Seq<OpView>,
    changes: Seq<OpView>,
)
    requires
        entries.len() > 0,
        entries[0].0.len() > 0,
        entries[0].0[0] == tag,
        nothing_comes(m, batch, longer, tag),
        nothing_comes(m, longer, changes, tag),
        !storage::apply_ops(m, longer).dom().contains(entries[0].0),
        overdue_is_gone(m, c, entries.skip(1), changes),
    ensures
        nothing_comes(m, batch, changes, tag),
        overdue_is_gone(m, c, entries, changes),
{
    let rest = entries.skip(1);
    assert forall|i: int|
        0 <= i < entries.len() && (forall|j: int|
            0 <= j <= i ==> is_overdue((#[trigger] entries[j]).0, c.issued_at))
        implies !storage::apply_ops(m, changes).dom().contains((#[trigger] entries[i]).0) by {
        if i > 0 {
            assert(rest[i - 1] == entries[i]);
            assert forall|j: int| 0 <= j <= i - 1 implies is_overdue(
                (#[trigger] rest[j]).0,
                c.issued_at,
            ) by {
                assert(rest[j] == entries[j + 1]);
            }
        }
    }
}

proof fn dead_lettering_clears(
    m: Contents,
    c: CommandView,
    record: RecordView,
    reason: DeadLetterReasonView,
    description: Seq<char>,
    batch: Seq<OpView>,
)
    ensures
        shared::dead_lettered(c, record, reason, description, batch) matches Ok(longer) ==> {
            &&& nothing_comes(m, batch, longer, keys::TAG_LOCK)
            &&& nothing_comes(m, batch, longer, keys::TAG_EXPIRY)
            &&& record.state matches MessageState::Locked { locked_until, .. }
                ==> !storage::apply_ops(m, longer).dom().contains(
                keys::lock_key(c.namespace, c.entity, locked_until, record.sequence),
            )
            &&& record.expires_at matches Some(at) ==> !storage::apply_ops(
                m,
                longer,
            ).dom().contains(keys::expiry_key(c.namespace, c.entity, at, record.sequence))
        },
{
    broadcast use history::one_more_change;

    lifecycle::keys_begin_with_their_tags();
}

proof fn returning_clears(
    m: Contents,
    c: CommandView,
    record: RecordView,
    locked_until: Timestamp,
    origin: DeliveryOrigin,
    batch: Seq<OpView>,
)
    ensures
        shared::returned(c, record, locked_until, origin, batch) matches Ok(longer) ==> {
            &&& nothing_comes(m, batch, longer, keys::TAG_LOCK)
            &&& !storage::apply_ops(m, longer).dom().contains(
                keys::lock_key(c.namespace, c.entity, locked_until, record.sequence),
            )
        },
{
    broadcast use history::one_more_change;

    lifecycle::keys_begin_with_their_tags();
}

proof fn undoing_clears(
    m: Contents,
    c: CommandView,
    config: QueueConfig,
    locks: Seq<(Seq<u8>, Seq<u8>)>,
    batch: Seq<OpView>,
    returned: nat,
    dead: nat,
)
    requires
        all_timed(m, c, keys::TAG_LOCK, locks),
    ensures
        expiry::undo_elapsed(m, c, config, locks, batch, returned, dead) matches Ok((changes, _))
            ==> nothing_comes(m, batch, changes, keys::TAG_LOCK) && overdue_is_gone(
            m,
            c,
            locks,
            changes,
        ),
    decreases locks.len(),
{
    if locks.len() > 0 {
        let step = expiry::undo_elapsed(m, c, config, locks, batch, returned, dead);
        the_rest_is_timed(m, c, keys::TAG_LOCK, locks);
        let (locked_until, sequence) = keys::last_deadline(locks[0].0)->Some_0;
        let record = places::message_in(m, c.namespace, c.entity, sequence)->Some_0;
        let rest = locks.skip(1);
        if step is Ok && locked_until.0 <= c.issued_at.0 {
            let changes = step->Ok_0.0;
            let origin = record.state->Locked_origin;
            if message::expired(record, c.issued_at) {
                let longer = shared::lifetime_over(c, record, batch)->Ok_0;
                dead_lettering_clears(
                    m,
                    c,
                    record,
                    DeadLetterReasonView::TimeToLiveExpired,
                    "the message exceeded its time to live"@,
                    batch,
                );
                undoing_clears(m, c, config, rest, longer, returned, dead + 1);
                one_goes_and_the_rest(m, c, keys::TAG_LOCK, locks, batch, longer, changes);
            } else if shared::over_delivery_limit(c, config, record) {
                let longer = shared::deliveries_over(c, record, batch)->Ok_0;
                dead_lettering_clears(
                    m,
                    c,
                    record,
                    DeadLetterReasonView::MaxDeliveryCountExceeded,
                    "the message reached its maximum delivery count"@,
                    batch,
                );
                undoing_clears(m, c, config, rest, longer, returned, dead + 1);
                one_goes_and_the_rest(m, c, keys::TAG_LOCK, locks, batch, longer, changes);
            } else {
                let longer = shared::returned(c, record, locked_until, origin, batch)->Ok_0;
                returning_clears(m, c, record, locked_until, origin, batch);
                undoing_clears(m, c, config, rest, longer, returned + 1, dead);
                one_goes_and_the_rest(m, c, keys::TAG_LOCK, locks, batch, longer, changes);
            }
        }
    }
}

proof fn ending_clears(
    m: Contents,
    c: CommandView,
    expiring: Seq<(Seq<u8>, Seq<u8>)>,
    batch: Seq<OpView>,
    dead: nat,
)
    requires
        all_timed(m, c, keys::TAG_EXPIRY, expiring),
    ensures
        expiry::end_elapsed(m, c, expiring, batch, dead) matches Ok((changes, _))
            ==> nothing_comes(m, batch, changes, keys::TAG_EXPIRY) && overdue_is_gone(
            m,
            c,
            expiring,
            changes,
        ),
    decreases expiring.len(),
{
    if expiring.len() > 0 {
        let step = expiry::end_elapsed(m, c, expiring, batch, dead);
        the_rest_is_timed(m, c, keys::TAG_EXPIRY, expiring);
        let (expires_at, sequence) = keys::last_deadline(expiring[0].0)->Some_0;
        let record = places::message_in(m, c.namespace, c.entity, sequence)->Some_0;
        let rest = expiring.skip(1);
        if step is Ok && expires_at.0 <= c.issued_at.0 {
            let changes = step->Ok_0.0;
            let longer = shared::lifetime_over(c, record, batch)->Ok_0;
            dead_lettering_clears(
                m,
                c,
                record,
                DeadLetterReasonView::TimeToLiveExpired,
                "the message exceeded its time to live"@,
                batch,
            );
            ending_clears(m, c, rest, longer, dead + 1);
            one_goes_and_the_rest(m, c, keys::TAG_EXPIRY, expiring, batch, longer, changes);
        }
    }
}

proof fn activating_clears(
    m: Contents,
    c: CommandView,
    due: Seq<(Seq<u8>, Seq<u8>)>,
    state: scheduling::ActivationState,
)
    requires
        all_timed(m, c, keys::TAG_SCHEDULED, due),
    ensures
        scheduling::activate_due(m, c, due, state) matches Ok(next) && nothing_comes(
            m,
            state.0,
            next.0,
            keys::TAG_SCHEDULED,
        ) && overdue_is_gone(m, c, due, next.0),
    decreases due.len(),
{
    broadcast use history::one_more_change;

    if due.len() > 0 {
        lifecycle::keys_begin_with_their_tags();
        the_rest_is_timed(m, c, keys::TAG_SCHEDULED, due);
        let (enqueue_at, placeholder) = keys::last_deadline(due[0].0)->Some_0;
        let record = places::message_in(m, c.namespace, c.entity, placeholder)->Some_0;
        if enqueue_at.0 <= c.issued_at.0 {
            assert(scheduling::due_record(m, c, enqueue_at, placeholder) == Ok::<
                RecordView,
                ErrorView,
            >(record));
            let active = scheduling::active_record(
                record,
                enqueue_at,
                SequenceNumber(state.1),
                c.issued_at,
            );
            let longer = scheduling::activated_changes(
                c,
                due[0].0,
                placeholder,
                active,
                state.0,
            );
            let rest = due.skip(1);
            activating_clears(m, c, rest, (longer, queue::bump(state.1), state.2 + 1));
            let changes = scheduling::activate_due(m, c, due, state)->Ok_0.0;
            one_goes_and_the_rest(m, c, keys::TAG_SCHEDULED, due, state.0, longer, changes);
        }
    }
}

/// The part of an index that a sweep walks.
pub open spec fn swept(m: Contents, c: CommandView, tag: u8) -> Seq<(Seq<u8>, Seq<u8>)> {
    let prefix = keys::scope_key(tag, c.namespace, c.entity);
    storage::scan(m, prefix, prefix, machine::TIMER_SCAN_LIMIT)
}

/// What a sweep walks is sorted by deadline, and leads to messages.
pub(crate) proof fn swept_entries_are_timed(m: Contents, c: CommandView, tag: u8)
    requires
        m.dom().finite(),
        places::indexed(m),
        places::proper(c.namespace, c.entity),
        tag == keys::TAG_LOCK || tag == keys::TAG_EXPIRY || tag == keys::TAG_SCHEDULED,
    ensures
        all_timed(m, c, tag, swept(m, c, tag)),
        forall|i: int, j: int|
            0 <= j <= i < swept(m, c, tag).len() && is_overdue(
                (#[trigger] swept(m, c, tag)[i]).0,
                c.issued_at,
            ) ==> is_overdue((#[trigger] swept(m, c, tag)[j]).0, c.issued_at),
{
    let prefix = keys::scope_key(tag, c.namespace, c.entity);
    let entries = swept(m, c, tag);
    let walked = storage::walk(m, prefix, prefix);
    storage::walk_lists_the_selected_keys(m, prefix, prefix);
    assert forall|i: int| 0 <= i < entries.len() implies places::is_timed(
        m,
        tag,
        c.namespace,
        c.entity,
        (#[trigger] entries[i]).0,
    ) by {
        assert(walked.contains(walked[i]));
        assert(storage::selected(m, prefix, prefix).contains(walked[i]));
        places::deadlines_lead_to_messages(m, tag, c.namespace, c.entity, walked[i]);
    }
    assert forall|i: int, j: int|
        0 <= j <= i < entries.len() && is_overdue(
            (#[trigger] entries[i]).0,
            c.issued_at,
        ) implies is_overdue((#[trigger] entries[j]).0, c.issued_at) by {
        if j < i {
            assert(bytes::lex_lt(walked[j], walked[i]));
            assert(places::is_timed(m, tag, c.namespace, c.entity, entries[i].0));
            assert(places::is_timed(m, tag, c.namespace, c.entity, entries[j].0));
            let (a, x) = keys::last_deadline(walked[j])->Some_0;
            let (b, y) = keys::last_deadline(walked[i])->Some_0;
            order::deadlines_sort(prefix, a.0, x.0, b.0, y.0);
        }
    }
}

proof fn undoing_succeeds(
    m: Contents,
    c: CommandView,
    config: QueueConfig,
    locks: Seq<(Seq<u8>, Seq<u8>)>,
    batch: Seq<OpView>,
    returned: nat,
    dead: nat,
)
    requires
        all_timed(m, c, keys::TAG_LOCK, locks),
        machine::shadow_of(c.entity) is Ok,
    ensures
        expiry::undo_elapsed(m, c, config, locks, batch, returned, dead) matches Ok((_, outcome))
            && outcome is LocksExpired,
    decreases locks.len(),
{
    if locks.len() > 0 {
        the_rest_is_timed(m, c, keys::TAG_LOCK, locks);
        let (locked_until, sequence) = keys::last_deadline(locks[0].0)->Some_0;
        let record = places::message_in(m, c.namespace, c.entity, sequence)->Some_0;
        let rest = locks.skip(1);
        if locked_until.0 <= c.issued_at.0 {
            let origin = record.state->Locked_origin;
            if message::expired(record, c.issued_at) {
                let longer = shared::lifetime_over(c, record, batch)->Ok_0;
                undoing_succeeds(m, c, config, rest, longer, returned, dead + 1);
            } else if shared::over_delivery_limit(c, config, record) {
                let longer = shared::deliveries_over(c, record, batch)->Ok_0;
                undoing_succeeds(m, c, config, rest, longer, returned, dead + 1);
            } else {
                let longer = shared::returned(c, record, locked_until, origin, batch)->Ok_0;
                undoing_succeeds(m, c, config, rest, longer, returned + 1, dead);
            }
        }
    }
}

proof fn ending_succeeds(
    m: Contents,
    c: CommandView,
    expiring: Seq<(Seq<u8>, Seq<u8>)>,
    batch: Seq<OpView>,
    dead: nat,
)
    requires
        all_timed(m, c, keys::TAG_EXPIRY, expiring),
        machine::shadow_of(c.entity) is Ok,
    ensures
        expiry::end_elapsed(m, c, expiring, batch, dead) matches Ok((_, outcome)) && outcome
            is MessagesExpired,
    decreases expiring.len(),
{
    if expiring.len() > 0 {
        the_rest_is_timed(m, c, keys::TAG_EXPIRY, expiring);
        let (expires_at, sequence) = keys::last_deadline(expiring[0].0)->Some_0;
        let record = places::message_in(m, c.namespace, c.entity, sequence)->Some_0;
        if expires_at.0 <= c.issued_at.0 {
            let longer = shared::lifetime_over(c, record, batch)->Ok_0;
            ending_succeeds(m, c, expiring.skip(1), longer, dead + 1);
        }
    }
}

/// The sweeps for locks and lifetimes succeed on a queue that exists: they are never
/// stopped by what the store holds.
pub proof fn sweeps_succeed(m: Contents, c: CommandView)
    requires
        m.dom().finite(),
        numbering::sound(m),
        places::proper(c.namespace, c.entity),
        c.kind is ExpireLocks || c.kind is ExpireMessages,
        machine::config_of(m, c) is Ok,
        machine::applied_time(m)->Ok_0.0 <= c.issued_at.0,
        machine::shadow_of(c.entity) is Ok,
    ensures
        c.kind is ExpireLocks ==> (apply::applied(m, c).0 matches Ok(
            OutcomeView::LocksExpired { .. },
        )),
        c.kind is ExpireMessages ==> (apply::applied(m, c).0 matches Ok(
            OutcomeView::MessagesExpired { .. },
        )),
{
    orderly::clocks_and_counters_are_legible(m, c);
    let config = machine::config_of(m, c)->Ok_0;
    swept_entries_are_timed(m, c, keys::TAG_LOCK);
    swept_entries_are_timed(m, c, keys::TAG_EXPIRY);
    undoing_succeeds(m, c, config, swept(m, c, keys::TAG_LOCK), Seq::empty(), 0, 0);
    ending_succeeds(m, c, swept(m, c, keys::TAG_EXPIRY), Seq::empty(), 0);
}

/// A message whose lock has ended is locked no more once a sweep has come by: of
/// what the sweep walks, no lock that has ended is left.
pub proof fn elapsed_locks_are_undone(m: Contents, c: CommandView, i: int)
    requires
        m.dom().finite(),
        numbering::sound(m),
        orderly::orderly_command(c),
        c.kind is ExpireLocks,
        apply::applied(m, c).0 is Ok,
        0 <= i < swept(m, c, keys::TAG_LOCK).len(),
        is_overdue(swept(m, c, keys::TAG_LOCK)[i].0, c.issued_at),
    ensures
        ({
            let key = swept(m, c, keys::TAG_LOCK)[i].0;
            let after = apply::applied(m, c).1;
            let n = keys::last_deadline(key)->Some_0.1;
            &&& !after.dom().contains(key)
            &&& places::message_in(m, c.namespace, c.entity, n) matches Some(record)
            &&& record.state is Locked
            &&& places::message_in(after, c.namespace, c.entity, n) matches Some(record)
                ==> !(record.state is Locked)
        }),
{
    let locks = swept(m, c, keys::TAG_LOCK);
    let key = locks[i].0;
    let config = machine::config_of(m, c)->Ok_0;
    let after = apply::applied(m, c).1;
    swept_entries_are_timed(m, c, keys::TAG_LOCK);
    assert(locks == storage::scan(
        m,
        keys::lock_prefix_key(c.namespace, c.entity),
        keys::lock_prefix_key(c.namespace, c.entity),
        machine::TIMER_SCAN_LIMIT,
    ));
    undoing_clears(m, c, config, locks, Seq::empty(), 0, 0);
    let changes = apply::command_step(m, c, Seq::empty())->Ok_0.0;
    assert(storage::apply_ops(m, Seq::empty()) == m);
    lifecycle::keys_begin_with_their_tags();
    history::one_more_change(m, changes, apply::clock_change(c.issued_at));
    assert(places::is_timed(m, keys::TAG_LOCK, c.namespace, c.entity, key));
    let (at, n) = keys::last_deadline(key)->Some_0;
    assert(!after.dom().contains(key));
    numbering::commands_keep_stores_sound(m, c);
    if let Some(record) = places::message_in(after, c.namespace, c.entity, n) {
        if let MessageState::Locked { locked_until, .. } = record.state {
            numbering::messages_stand_in_the_index_of_their_state(after, c.namespace, c.entity, n);
            let lock = keys::lock_key(c.namespace, c.entity, locked_until, n);
            assert(after.dom().contains(lock));
            assert(m.dom().contains(lock));
            let scope = keys::scope_key(keys::TAG_LOCK, c.namespace, c.entity);
            assert(bytes::has_prefix(lock, scope)) by {
                assert(lock.subrange(0, scope.len() as int) =~= scope);
            }
            places::deadlines_lead_to_messages(m, keys::TAG_LOCK, c.namespace, c.entity, lock);
            order::deadlines_read_back(scope, locked_until, n);
        }
    }
}

/// A message whose lifetime has ended is ready no more once a sweep has come by: of
/// what the sweep walks, no lifetime that has ended is left.
pub proof fn elapsed_lifetimes_are_ended(m: Contents, c: CommandView, i: int)
    requires
        m.dom().finite(),
        numbering::sound(m),
        orderly::orderly_command(c),
        c.kind is ExpireMessages,
        apply::applied(m, c).0 is Ok,
        0 <= i < swept(m, c, keys::TAG_EXPIRY).len(),
        is_overdue(swept(m, c, keys::TAG_EXPIRY)[i].0, c.issued_at),
    ensures
        ({
            let key = swept(m, c, keys::TAG_EXPIRY)[i].0;
            let after = apply::applied(m, c).1;
            let (at, n) = keys::last_deadline(key)->Some_0;
            &&& !after.dom().contains(key)
            &&& places::message_in(m, c.namespace, c.entity, n) matches Some(record)
            &&& record.state is Ready && record.expires_at == Some(at)
            &&& places::message_in(after, c.namespace, c.entity, n) matches Some(record) ==> !(
            record.state is Ready && record.expires_at == Some(at))
        }),
{
    let expiring = swept(m, c, keys::TAG_EXPIRY);
    let key = expiring[i].0;
    let after = apply::applied(m, c).1;
    swept_entries_are_timed(m, c, keys::TAG_EXPIRY);
    ending_clears(m, c, expiring, Seq::empty(), 0);
    let changes = apply::command_step(m, c, Seq::empty())->Ok_0.0;
    assert(storage::apply_ops(m, Seq::empty()) == m);
    lifecycle::keys_begin_with_their_tags();
    history::one_more_change(m, changes, apply::clock_change(c.issued_at));
    assert(places::is_timed(m, keys::TAG_EXPIRY, c.namespace, c.entity, key));
    let (at, n) = keys::last_deadline(key)->Some_0;
    assert(!after.dom().contains(key));
    numbering::commands_keep_stores_sound(m, c);
    numbering::messages_stand_in_the_index_of_their_state(after, c.namespace, c.entity, n);
}

/// Messages that are due are activated by a sweep, which never fails on a queue that
/// exists: of what the sweep walks, none that is due is left waiting.
pub proof fn due_messages_are_activated(m: Contents, c: CommandView, i: int)
    requires
        m.dom().finite(),
        numbering::sound(m),
        orderly::orderly_command(c),
        numbering::numbers_last(m, c),
        c.kind is ActivateScheduled,
        machine::config_of(m, c) is Ok,
        machine::applied_time(m)->Ok_0.0 <= c.issued_at.0,
    ensures
        apply::applied(m, c).0 matches Ok(OutcomeView::ScheduledActivated { .. }),
        0 <= i < swept(m, c, keys::TAG_SCHEDULED).len() && is_overdue(
            swept(m, c, keys::TAG_SCHEDULED)[i].0,
            c.issued_at,
        ) ==> ({
            let key = swept(m, c, keys::TAG_SCHEDULED)[i].0;
            let after = apply::applied(m, c).1;
            let (at, n) = keys::last_deadline(key)->Some_0;
            &&& !after.dom().contains(key)
            &&& places::message_in(m, c.namespace, c.entity, n) matches Some(record)
            &&& record.state is Scheduled
            &&& places::message_in(after, c.namespace, c.entity, n) matches Some(record)
                ==> !(record.state is Scheduled)
        }),
{
    let due = swept(m, c, keys::TAG_SCHEDULED);
    let after = apply::applied(m, c).1;
    orderly::clocks_and_counters_are_legible(m, c);
    let counters = machine::counters_of(m, c)->Ok_0;
    swept_entries_are_timed(m, c, keys::TAG_SCHEDULED);
    activating_clears(m, c, due, (Seq::empty(), counters.next_sequence, 0));
    let next = scheduling::activate_due(m, c, due, (Seq::empty(), counters.next_sequence, 0))->Ok_0;
    assert(storage::apply_ops(m, Seq::empty()) == m);
    lifecycle::keys_begin_with_their_tags();
    let changes = apply::command_step(m, c, Seq::empty())->Ok_0.0;
    if next.2 > 0 {
        assert(changes.drop_last() =~= next.0);
        history::one_more_change(m, next.0, changes.last());
        assert(next.0.push(changes.last()) =~= changes);
    }
    history::one_more_change(m, changes, apply::clock_change(c.issued_at));
    if 0 <= i < due.len() && is_overdue(due[i].0, c.issued_at) {
        let key = due[i].0;
        assert(places::is_timed(m, keys::TAG_SCHEDULED, c.namespace, c.entity, key));
        let (at, n) = keys::last_deadline(key)->Some_0;
        assert(!storage::apply_ops(m, next.0).dom().contains(key));
        assert(!after.dom().contains(key));
        numbering::commands_keep_stores_sound(m, c);
        if let Some(record) = places::message_in(after, c.namespace, c.entity, n) {
            if record.state is Scheduled {
                numbering::messages_stand_in_the_index_of_their_state(
                    after,
                    c.namespace,
                    c.entity,
                    n,
                );
                let when = record.scheduled_enqueue_at->Some_0;
                let waiting = keys::scheduled_key(c.namespace, c.entity, when, n);
                assert(after.dom().contains(waiting));
                assert(m.dom().contains(waiting));
                let scope = keys::scope_key(keys::TAG_SCHEDULED, c.namespace, c.entity);
                assert(bytes::has_prefix(waiting, scope)) by {
                    assert(waiting.subrange(0, scope.len() as int) =~= scope);
                }
                places::deadlines_lead_to_messages(
                    m,
                    keys::TAG_SCHEDULED,
                    c.namespace,
                    c.entity,
                    waiting,
                );
                order::deadlines_read_back(scope, when, n);
            }
        }
    }
}

// ---- sessions --------------------------------------------------------------

/// Whether a message of a session is ready.
pub open spec fn is_ready_in(
    m: Contents,
    c: CommandView,
    id: Seq<char>,
    n: SequenceNumber,
) -> bool {
    places::message_in(m, c.namespace, c.entity, n) matches Some(record) && record.state is Ready
        && record.session_id == Some(id)
}

/// Whether a session has a message that is ready.
pub open spec fn has_ready(m: Contents, c: CommandView, id: Seq<char>) -> bool {
    exists|n: SequenceNumber| is_ready_in(m, c, id, n)
}

/// Whether nobody holds a session.
pub open spec fn is_free(m: Contents, c: CommandView, id: Seq<char>) -> bool {
    machine::session_of(m, c, id) matches Ok(record) && session::live_lock(
        record,
        c.issued_at,
    ) is None
}

/// Whether sessions differ, have ready messages, and are held.
pub open spec fn are_busy(m: Contents, c: CommandView, ids: Seq<Seq<char>>) -> bool {
    &&& ids.no_duplicates()
    &&& forall|i: int|
        0 <= i < ids.len() ==> has_ready(m, c, #[trigger] ids[i]) && !is_free(m, c, ids[i])
}

/// Whether so many sessions with ready messages are held that a search ends before it
/// has seen them all.
pub open spec fn too_many_are_busy(m: Contents, c: CommandView) -> bool {
    exists|ids: Seq<Seq<char>>| #[trigger]
        are_busy(m, c, ids) && ids.len() == machine::MAX_SESSION_SCAN
}

/// A session that nobody holds is accepted by whoever names it, whether it has
/// messages or not.
pub proof fn free_sessions_are_accepted(m: Contents, c: CommandView, id: Seq<char>)
    requires
        orderly::orderly(m),
        c.kind is AcceptSession,
        c.kind->AcceptSession_session_id == Some(id),
        machine::config_of(m, c) matches Ok(config) && config.requires_session,
        machine::applied_time(m)->Ok_0.0 <= c.issued_at.0,
        is_free(m, c, id),
    ensures
        apply::applied(m, c).0 matches Ok(OutcomeView::SessionAccepted(Some(accepted)))
            && accepted.session_id == id,
{
    orderly::clocks_and_counters_are_legible(m, c);
}

/// What a search for a session has passed: every session whose entries come before.
spec fn all_passed(m: Contents, c: CommandView, start: Seq<u8>, seen: Seq<Seq<char>>) -> bool {
    forall|id: Seq<char>, n: SequenceNumber|
        order::clean(id) && m.dom().contains(
            #[trigger] keys::session_ready_key(c.namespace, c.entity, id, n),
        ) && bytes::lex_lt(keys::session_ready_key(c.namespace, c.entity, id, n), start)
            ==> seen.contains(id)
}

/// What a search for a session has seen, in order.
spec fn seen_so_far(m: Contents, c: CommandView, start: Seq<u8>, seen: Seq<Seq<char>>) -> bool {
    &&& are_busy(m, c, seen)
    &&& forall|i: int| 0 <= i < seen.len() ==> order::clean(#[trigger] seen[i])
    &&& forall|i: int, j: int|
        0 <= i < j < seen.len() ==> bytes::lex_lt(
            bytes::utf8(#[trigger] seen[i]),
            bytes::utf8(#[trigger] seen[j]),
        )
    &&& seen.len() == 0 ==> start == keys::entity_session_ready_prefix_key(c.namespace, c.entity)
    &&& seen.len() > 0 ==> start == keys::after_session_ready_key(
        c.namespace,
        c.entity,
        seen.last(),
    )
    &&& all_passed(m, c, start, seen)
}

proof fn entries_lie_below(c: CommandView, id: Seq<char>, n: SequenceNumber)
    ensures
        ({
            let prefix = keys::entity_session_ready_prefix_key(c.namespace, c.entity);
            let key = keys::session_ready_key(c.namespace, c.entity, id, n);
            bytes::has_prefix(key, prefix) && bytes::lex_lt(prefix, key)
        }),
{
    let prefix = keys::entity_session_ready_prefix_key(c.namespace, c.entity);
    let key = keys::session_ready_key(c.namespace, c.entity, id, n);
    assert(key.subrange(0, prefix.len() as int) =~= prefix);
    assert(bytes::parts_below(prefix, key, prefix.len() as int));
}

/// What comes next in a search: the first entry that has not been passed.
proof fn next_entry(m: Contents, c: CommandView, start: Seq<u8>) -> (found: (
    Seq<char>,
    SequenceNumber,
))
    requires
        m.dom().finite(),
        orderly::orderly(m),
        places::proper(c.namespace, c.entity),
        storage::scan(
            m,
            keys::entity_session_ready_prefix_key(c.namespace, c.entity),
            start,
            1,
        ).len() > 0,
    ensures
        ({
            let prefix = keys::entity_session_ready_prefix_key(c.namespace, c.entity);
            let key = keys::session_ready_key(c.namespace, c.entity, found.0, found.1);
            &&& order::clean(found.0)
            &&& storage::scan(m, prefix, start, 1)[0].0 == key
            &&& m.dom().contains(key)
            &&& bytes::lex_le(start, key)
            &&& keys::session_after(prefix, key) == Some(found.0)
            &&& storage::walk(m, prefix, start)[0] == key
        }),
{
    let prefix = keys::entity_session_ready_prefix_key(c.namespace, c.entity);
    storage::walk_lists_the_selected_keys(m, prefix, start);
    let walked = storage::walk(m, prefix, start);
    let key = walked[0];
    assert(walked.contains(key));
    assert(storage::selected(m, prefix, start).contains(key));
    assert(orderly::orderly_entry(key, m[key]));
    reveal(orderly::orderly_entry);
    assert(key.subrange(0, prefix.len() as int)[0] == prefix[0]);
    let (ns, e, id, n) = choose|
        ns: Seq<char>,
        e: Seq<char>,
        id: Seq<char>,
        n: SequenceNumber,
    | orderly::names_session_ready(key, ns, e, id, n);
    let rest = bytes::utf8(id) + seq![keys::SEPARATOR] + bytes::be(n.0 as nat, 8);
    assert(key =~= keys::scope_key(keys::TAG_SESSION_READY, ns, e) + rest);
    order::a_key_lies_in_one_scope(
        keys::TAG_SESSION_READY,
        c.namespace,
        c.entity,
        keys::TAG_SESSION_READY,
        ns,
        e,
        rest,
    );
    order::sessions_read_back(prefix, id, bytes::be(n.0 as nat, 8));
    assert(key =~= prefix + bytes::utf8(id) + seq![keys::SEPARATOR] + bytes::be(n.0 as nat, 8));
    (id, n)
}

/// One more session has been seen.
proof fn one_more_is_seen(
    m: Contents,
    c: CommandView,
    start: Seq<u8>,
    seen: Seq<Seq<char>>,
    id: Seq<char>,
    n: SequenceNumber,
)
    requires
        m.dom().finite(),
        places::proper(c.namespace, c.entity),
        seen_so_far(m, c, start, seen),
        order::clean(id),
        has_ready(m, c, id),
        !is_free(m, c, id),
        ({
            let prefix = keys::entity_session_ready_prefix_key(c.namespace, c.entity);
            let key = keys::session_ready_key(c.namespace, c.entity, id, n);
            &&& bytes::lex_le(start, key)
            &&& storage::walk(m, prefix, start).len() > 0
            &&& storage::walk(m, prefix, start)[0] == key
        }),
    ensures
        seen_so_far(
            m,
            c,
            keys::after_session_ready_key(c.namespace, c.entity, id),
            seen.push(id),
        ),
{
    let prefix = keys::entity_session_ready_prefix_key(c.namespace, c.entity);
    let key = keys::session_ready_key(c.namespace, c.entity, id, n);
    let next = keys::after_session_ready_key(c.namespace, c.entity, id);
    let longer = seen.push(id);
    if seen.len() > 0 {
        let last = seen.last();
        assert(bytes::lex_lt(bytes::utf8(last), bytes::utf8(id))) by {
            assert(order::clean(seen[seen.len() - 1]));
            bytes::lex_total(bytes::utf8(last), bytes::utf8(id));
            if bytes::utf8(last) == bytes::utf8(id) {
                bytes::utf8_injective(last, id);
                entries_come_before(c, id, n);
                bytes::lex_asymmetric(key, start);
            } else if bytes::lex_lt(bytes::utf8(id), bytes::utf8(last)) {
                order::a_walk_resumes_behind_a_session(c.namespace, c.entity, id, last, n);
                entries_come_before(c, last, n);
                bytes::lex_transitive(
                    key,
                    next,
                    keys::session_ready_key(c.namespace, c.entity, last, n),
                );
                bytes::lex_transitive(
                    key,
                    keys::session_ready_key(c.namespace, c.entity, last, n),
                    start,
                );
                bytes::lex_asymmetric(key, start);
            }
        }
        assert forall|i: int| 0 <= i < seen.len() implies bytes::lex_lt(
            bytes::utf8(#[trigger] seen[i]),
            bytes::utf8(id),
        ) by {
            if i < seen.len() - 1 {
                assert(bytes::lex_lt(bytes::utf8(seen[i]), bytes::utf8(seen[seen.len() - 1])));
                bytes::lex_transitive(bytes::utf8(seen[i]), bytes::utf8(last), bytes::utf8(id));
            }
        }
    }
    assert(are_busy(m, c, longer)) by {
        if seen.contains(id) {
            let i = choose|i: int| 0 <= i < seen.len() && seen[i] == id;
            bytes::lex_irreflexive(bytes::utf8(id));
        }
        assert(longer.no_duplicates());
    }
    assert(all_passed(m, c, next, longer)) by {
        assert forall|other: Seq<char>, x: SequenceNumber|
            order::clean(other) && m.dom().contains(
                #[trigger] keys::session_ready_key(c.namespace, c.entity, other, x),
            ) && bytes::lex_lt(
                keys::session_ready_key(c.namespace, c.entity, other, x),
                next,
            ) implies longer.contains(other) by {
            let entry = keys::session_ready_key(c.namespace, c.entity, other, x);
            bytes::lex_total(bytes::utf8(other), bytes::utf8(id));
            if bytes::utf8(other) == bytes::utf8(id) {
                bytes::utf8_injective(other, id);
                assert(longer[seen.len() as int] == other);
            } else if bytes::lex_lt(bytes::utf8(id), bytes::utf8(other)) {
                order::a_walk_resumes_behind_a_session(c.namespace, c.entity, id, other, x);
                bytes::lex_asymmetric(entry, next);
            } else {
                order::a_walk_resumes_behind_a_session(c.namespace, c.entity, other, id, n);
                entries_come_before(c, other, x);
                bytes::lex_transitive(
                    entry,
                    keys::after_session_ready_key(c.namespace, c.entity, other),
                    key,
                );
                if bytes::lex_le(start, entry) {
                    storage::walk_lists_the_selected_keys(m, prefix, start);
                    entries_lie_below(c, other, x);
                    let walked = storage::walk(m, prefix, start);
                    assert(storage::selected(m, prefix, start).contains(entry));
                    assert(walked.contains(entry));
                    let i = choose|i: int| 0 <= i < walked.len() && walked[i] == entry;
                    if i > 0 {
                        assert(bytes::lex_lt(walked[0], walked[i]));
                        bytes::lex_asymmetric(entry, key);
                    } else {
                        bytes::lex_irreflexive(key);
                    }
                }
                bytes::lex_total(start, entry);
                assert(seen.contains(other));
                let i = choose|i: int| 0 <= i < seen.len() && seen[i] == other;
                assert(longer[i] == other);
            }
        }
    }
}

proof fn entries_come_before(c: CommandView, id: Seq<char>, n: SequenceNumber)
    ensures
        bytes::lex_lt(
            keys::session_ready_key(c.namespace, c.entity, id, n),
            keys::after_session_ready_key(c.namespace, c.entity, id),
        ),
{
    let own = keys::session_ready_key(c.namespace, c.entity, id, n);
    let resume = keys::after_session_ready_key(c.namespace, c.entity, id);
    let at = (keys::entity_session_ready_prefix_key(c.namespace, c.entity).len() + bytes::utf8(
        id,
    ).len()) as int;
    assert(own[at] == keys::SEPARATOR);
    assert(resume[at] == 1);
    assert(bytes::parts_below(own, resume, at));
}

/// What a search for a session comes to.
pub open spec fn rightly_accepted(
    m: Contents,
    c: CommandView,
    accepted: Option<AcceptedView>,
) -> bool {
    match accepted {
        Some(accepted) => has_ready(m, c, accepted.session_id) && is_free(
            m,
            c,
            accepted.session_id,
        ),
        None => too_many_are_busy(m, c) || forall|id: Seq<char>| #[trigger]
            has_ready(m, c, id) ==> !is_free(m, c, id),
    }
}

proof fn searching_is_right(
    m: Contents,
    c: CommandView,
    locked_until: Timestamp,
    start: Seq<u8>,
    n: nat,
    seen: Seq<Seq<char>>,
)
    requires
        m.dom().finite(),
        orderly::orderly(m),
        places::indexed(m),
        places::proper(c.namespace, c.entity),
        seen_so_far(m, c, start, seen),
        seen.len() + n == machine::MAX_SESSION_SCAN,
    ensures
        sessions::accept_from(m, c, locked_until, start, n, Seq::empty()) matches Ok(
            (_, outcome),
        ) ==> outcome is SessionAccepted && rightly_accepted(m, c, outcome->SessionAccepted_0),
    decreases n,
{
    let prefix = keys::entity_session_ready_prefix_key(c.namespace, c.entity);
    let found = storage::scan(m, prefix, start, 1);
    if n == 0 {
        assert(too_many_are_busy(m, c));
    } else if found.len() == 0 {
        storage::walk_lists_the_selected_keys(m, prefix, start);
        let walked = storage::walk(m, prefix, start);
        assert forall|id: Seq<char>| #[trigger] has_ready(m, c, id) implies !is_free(m, c, id) by {
            let x = choose|x: SequenceNumber| is_ready_in(m, c, id, x);
            let key = keys::session_ready_key(c.namespace, c.entity, id, x);
            places::ready_messages_have_clean_entries(m, c.namespace, c.entity, x);
            entries_lie_below(c, id, x);
            bytes::lex_total(start, key);
            if bytes::lex_le(start, key) {
                assert(storage::selected(m, prefix, start).contains(key));
                assert(walked.contains(key));
            }
            assert(seen.contains(id));
        }
    } else {
        let (id, x) = next_entry(m, c, start);
        places::ready_entries_lead_to_ready_messages(m, c.namespace, c.entity, Some(id), x);
        assert(is_ready_in(m, c, id, x));
        if identifier::session_id_of(id) is Ok && machine::session_of(m, c, id) is Ok && !is_free(
            m,
            c,
            id,
        ) {
            let next = keys::after_session_ready_key(c.namespace, c.entity, id);
            one_more_is_seen(m, c, start, seen, id, x);
            searching_is_right(m, c, locked_until, next, (n - 1) as nat, seen.push(id));
        }
    }
}

/// Who asks for any session gets one that has a ready message and that nobody holds.
/// None is given only where there is none, or where so many are held that the search
/// ends before it has seen them all.
pub proof fn sessions_are_found(m: Contents, c: CommandView)
    requires
        m.dom().finite(),
        numbering::sound(m),
        places::proper(c.namespace, c.entity),
        c.kind is AcceptSession,
        c.kind->AcceptSession_session_id is None,
    ensures
        apply::applied(m, c).0 matches Ok(outcome) ==> outcome is SessionAccepted
            && rightly_accepted(m, c, outcome->SessionAccepted_0),
{
    if let Ok(outcome) = apply::applied(m, c).0 {
        let config = machine::config_of(m, c)->Ok_0;
        let prefix = keys::entity_session_ready_prefix_key(c.namespace, c.entity);
        let locked_until = time::later(
            c.issued_at,
            delivery::lock_millis(config, c.kind->AcceptSession_lock_duration_millis),
        );
        let seen: Seq<Seq<char>> = Seq::empty();
        assert(all_passed(m, c, prefix, seen)) by {
            assert forall|id: Seq<char>, n: SequenceNumber|
                order::clean(id) && m.dom().contains(
                    #[trigger] keys::session_ready_key(c.namespace, c.entity, id, n),
                ) && bytes::lex_lt(
                    keys::session_ready_key(c.namespace, c.entity, id, n),
                    prefix,
                ) implies seen.contains(id) by {
                entries_lie_below(c, id, n);
                bytes::lex_asymmetric(
                    prefix,
                    keys::session_ready_key(c.namespace, c.entity, id, n),
                );
            }
        }
        searching_is_right(
            m,
            c,
            locked_until,
            prefix,
            machine::MAX_SESSION_SCAN as nat,
            seen,
        );
    }
}

// ---- browsing --------------------------------------------------------------

/// Whether a browse shows a message.
pub open spec fn is_shown(
    m: Contents,
    c: CommandView,
    expected: Option<Seq<char>>,
    n: SequenceNumber,
) -> bool {
    places::message_in(m, c.namespace, c.entity, n) matches Some(record) && !peek::passed_over(
        record,
        expected,
        c.issued_at,
    )
}

/// Whether a page shows messages as they are stored, in the order of their numbers.
pub open spec fn shows_stored(
    m: Contents,
    c: CommandView,
    expected: Option<Seq<char>>,
    page: Seq<DeliveryView>,
) -> bool {
    &&& forall|i: int|
        0 <= i < page.len() ==> is_shown(m, c, expected, (#[trigger] page[i]).sequence)
            && page[i] == message::delivery_of(
            places::message_in(m, c.namespace, c.entity, page[i].sequence)->Some_0,
            peek::peeked_origin(
                places::message_in(m, c.namespace, c.entity, page[i].sequence)->Some_0.state,
            ),
            None,
        )
    &&& forall|i: int, j: int|
        0 <= i < j < page.len() ==> (#[trigger] page[i]).sequence.0 < (
        #[trigger] page[j]).sequence.0
}

/// Whether a message is on a page.
pub open spec fn is_on(page: Seq<DeliveryView>, n: SequenceNumber) -> bool {
    exists|i: int| 0 <= i < page.len() && (#[trigger] page[i]).sequence == n
}

/// Whether a message comes behind a page that is full.
pub open spec fn is_behind(page: Seq<DeliveryView>, size: nat, n: SequenceNumber) -> bool {
    page.len() >= size && forall|i: int|
        0 <= i < page.len() ==> (#[trigger] page[i]).sequence.0 < n.0
}

/// The number in a key of a message.
pub(crate) open spec fn numbered_by(key: Seq<u8>) -> SequenceNumber {
    keys::last_sequence(key)->Some_0
}

/// Whether keys are those of messages, in the order of their numbers.
pub(crate) open spec fn are_messages(m: Contents, c: CommandView, walked: Seq<Seq<u8>>) -> bool {
    &&& forall|i: int|
        0 <= i < walked.len() ==> {
            let key = #[trigger] walked[i];
            let n = numbered_by(key);
            &&& keys::last_sequence(key) is Some
            &&& key == keys::message_key(c.namespace, c.entity, n)
            &&& m.dom().contains(key)
            &&& places::message_in(m, c.namespace, c.entity, n) matches Some(record)
            &&& record.sequence == n
            &&& message::decoded_record(m[key]) == Ok::<RecordView, CodecError>(record)
        }
    &&& forall|i: int, j: int|
        0 <= i < j < walked.len() ==> numbered_by(#[trigger] walked[i]).0 < numbered_by(
            #[trigger] walked[j],
        ).0
}

pub(crate) proof fn walked_messages(m: Contents, c: CommandView, from: SequenceNumber)
    requires
        m.dom().finite(),
        orderly::orderly(m),
        places::proper(c.namespace, c.entity),
    ensures
        ({
            let walked = storage::walk(
                m,
                keys::message_prefix_key(c.namespace, c.entity),
                keys::message_key(c.namespace, c.entity, from),
            );
            &&& are_messages(m, c, walked)
            &&& forall|i: int|
                0 <= i < walked.len() ==> from.0 <= numbered_by(#[trigger] walked[i]).0
            &&& forall|n: SequenceNumber|
                from.0 <= n.0 && (#[trigger] places::message_in(m, c.namespace, c.entity, n))
                    is Some ==> walked.contains(keys::message_key(c.namespace, c.entity, n))
        }),
{
    let prefix = keys::message_prefix_key(c.namespace, c.entity);
    let start = keys::message_key(c.namespace, c.entity, from);
    let walked = storage::walk(m, prefix, start);
    storage::walk_lists_the_selected_keys(m, prefix, start);
    reveal(orderly::orderly_entry);
    assert forall|i: int| 0 <= i < walked.len() implies {
        let key = #[trigger] walked[i];
        let n = numbered_by(key);
        &&& keys::last_sequence(key) is Some
        &&& key == keys::message_key(c.namespace, c.entity, n)
        &&& m.dom().contains(key)
        &&& places::message_in(m, c.namespace, c.entity, n) matches Some(record)
        &&& record.sequence == n
        &&& message::decoded_record(m[key]) == Ok::<RecordView, CodecError>(record)
        &&& from.0 <= n.0
    } by {
        let key = walked[i];
        assert(walked.contains(key));
        assert(storage::selected(m, prefix, start).contains(key));
        assert(orderly::orderly_entry(key, m[key]));
        assert(key.subrange(0, prefix.len() as int)[0] == prefix[0]);
        let (ns, e, record) = choose|ns: Seq<char>, e: Seq<char>, record: RecordView|
            orderly::stands_for(key, m[key], ns, e, record);
        order::a_key_lies_in_one_scope(
            keys::TAG_MESSAGE,
            c.namespace,
            c.entity,
            keys::TAG_MESSAGE,
            ns,
            e,
            bytes::be(record.sequence.0 as nat, 8),
        );
        order::sequences_read_back(prefix, record.sequence);
        message::stored_messages_read_back(record);
        order::numbers_sort(prefix, record.sequence.0, from.0);
        if record.sequence.0 < from.0 {
            bytes::lex_asymmetric(key, start);
        }
    }
    assert forall|i: int, j: int| 0 <= i < j < walked.len() implies numbered_by(
        #[trigger] walked[i],
    ).0 < numbered_by(#[trigger] walked[j]).0 by {
        assert(bytes::lex_lt(walked[i], walked[j]));
        order::numbers_sort(prefix, numbered_by(walked[i]).0, numbered_by(walked[j]).0);
    }
    assert forall|n: SequenceNumber|
        from.0 <= n.0 && (#[trigger] places::message_in(m, c.namespace, c.entity, n))
            is Some implies walked.contains(keys::message_key(c.namespace, c.entity, n)) by {
        let key = keys::message_key(c.namespace, c.entity, n);
        lies_below(prefix, n.0);
        order::numbers_sort(prefix, from.0, n.0);
        assert(storage::selected(m, prefix, start).contains(key));
    }
}

pub(crate) proof fn browsing_is_right(
    m: Contents,
    c: CommandView,
    expected: Option<Seq<char>>,
    walked: Seq<Seq<u8>>,
    i: int,
    size: nat,
    found: Seq<DeliveryView>,
)
    requires
        are_messages(m, c, walked),
        0 <= i <= walked.len(),
        found.len() <= size,
        shows_stored(m, c, expected, found),
        forall|k: int, j: int|
            0 <= k < found.len() && i <= j < walked.len() ==> (#[trigger] found[k]).sequence.0
                < numbered_by(#[trigger] walked[j]).0,
        forall|j: int|
            0 <= j < i && is_shown(m, c, expected, numbered_by(#[trigger] walked[j])) ==> is_on(
                found,
                numbered_by(walked[j]),
            ),
    ensures
        peek::browse_from(m, c, expected, walked, i, size, found) matches Ok(page) && page.len()
            <= size && shows_stored(m, c, expected, page) && forall|j: int|
            0 <= j < walked.len() && is_shown(m, c, expected, numbered_by(#[trigger] walked[j]))
                ==> is_on(page, numbered_by(walked[j])) || is_behind(
                page,
                size,
                numbered_by(walked[j]),
            ),
    decreases walked.len() - i,
{
    if i < walked.len() && found.len() < size {
        let key = walked[i];
        let n = numbered_by(key);
        let record = places::message_in(m, c.namespace, c.entity, n)->Some_0;
        let next = if peek::passed_over(record, expected, c.issued_at) {
            found
        } else {
            found.push(message::delivery_of(record, peek::peeked_origin(record.state), None))
        };
        assert forall|j: int|
            0 <= j < i + 1 && is_shown(
                m,
                c,
                expected,
                numbered_by(#[trigger] walked[j]),
            ) implies is_on(next, numbered_by(walked[j])) by {
            if j == i {
                assert(next[found.len() as int].sequence == n);
            } else {
                let k = choose|k: int|
                    0 <= k < found.len() && (#[trigger] found[k]).sequence == numbered_by(
                        walked[j],
                    );
                assert(next[k].sequence == numbered_by(walked[j]));
            }
        }
        assert forall|k: int, j: int| 0 <= k < next.len() && i + 1 <= j < walked.len() implies (
        #[trigger] next[k]).sequence.0 < numbered_by(#[trigger] walked[j]).0 by {
            if k < found.len() {
                assert(next[k] == found[k]);
            } else {
                assert(next[k].sequence == numbered_by(walked[i]));
            }
        }
        assert(shows_stored(m, c, expected, next)) by {
            assert forall|a: int, b: int| 0 <= a < b < next.len() implies (
            #[trigger] next[a]).sequence.0 < (#[trigger] next[b]).sequence.0 by {
                assert(next[a] == found[a]);
                if b < found.len() {
                    assert(next[b] == found[b]);
                } else {
                    assert(found[a].sequence.0 < numbered_by(walked[i]).0);
                }
            }
            assert forall|a: int| 0 <= a < next.len() implies is_shown(
                m,
                c,
                expected,
                (#[trigger] next[a]).sequence,
            ) && next[a] == message::delivery_of(
                places::message_in(m, c.namespace, c.entity, next[a].sequence)->Some_0,
                peek::peeked_origin(
                    places::message_in(m, c.namespace, c.entity, next[a].sequence)->Some_0.state,
                ),
                None,
            ) by {
                if a < found.len() {
                    assert(next[a] == found[a]);
                }
            }
        }
        browsing_is_right(m, c, expected, walked, i + 1, size, next);
    }
}

/// A browse shows the messages of a queue from a number on as they are stored, in
/// the order of their numbers, as many as fit on the page: whatever it leaves out
/// comes behind a full page, belongs to another session, or has outlived its
/// lifetime.
pub proof fn messages_are_browsed_in_order(m: Contents, c: CommandView)
    requires
        m.dom().finite(),
        numbering::sound(m),
        places::proper(c.namespace, c.entity),
        c.kind is Peek,
        apply::applied(m, c).0 is Ok,
    ensures
        ({
            let from = c.kind->Peek_from_sequence;
            let size = peek::page_size(c.kind->Peek_max_messages);
            let expected = match c.kind->Peek_session {
                Some(hold) => Some(hold.session_id),
                None => None,
            };
            &&& apply::applied(m, c).0 matches Ok(OutcomeView::Peeked(page))
            &&& page.len() <= size
            &&& shows_stored(m, c, expected, page)
            &&& forall|i: int| 0 <= i < page.len() ==> from.0 <= (#[trigger] page[i]).sequence.0
            &&& forall|n: SequenceNumber| #[trigger]
                is_shown(m, c, expected, n) && from.0 <= n.0 ==> is_on(page, n) || is_behind(
                    page,
                    size,
                    n,
                )
        }),
{
    let from = c.kind->Peek_from_sequence;
    let size = peek::page_size(c.kind->Peek_max_messages);
    let expected = match c.kind->Peek_session {
        Some(hold) => Some(hold.session_id),
        None => None,
    };
    let prefix = keys::message_prefix_key(c.namespace, c.entity);
    let walked = storage::walk(m, prefix, keys::message_key(c.namespace, c.entity, from));
    walked_messages(m, c, from);
    browsing_is_right(m, c, expected, walked, 0, size, Seq::empty());
    let page = peek::browsed(m, c, from, c.kind->Peek_max_messages, expected)->Ok_0;
    assert(apply::applied(m, c).0 == Ok::<OutcomeView, ErrorView>(OutcomeView::Peeked(page)));
    assert forall|n: SequenceNumber| #[trigger]
        is_shown(m, c, expected, n) && from.0 <= n.0 implies is_on(page, n) || is_behind(
        page,
        size,
        n,
    ) by {
        let key = keys::message_key(c.namespace, c.entity, n);
        assert(walked.contains(key));
        let j = choose|j: int| 0 <= j < walked.len() && walked[j] == key;
        order::sequences_read_back(prefix, n);
        assert(numbered_by(walked[j]) == n);
    }
    assert forall|i: int| 0 <= i < page.len() implies from.0 <= (#[trigger] page[i]).sequence.0 by {
        browsing_stays_behind(m, c, expected, walked, 0, size, Seq::empty(), from);
    }
}

pub(crate) proof fn browsing_stays_behind(
    m: Contents,
    c: CommandView,
    expected: Option<Seq<char>>,
    walked: Seq<Seq<u8>>,
    i: int,
    size: nat,
    found: Seq<DeliveryView>,
    from: SequenceNumber,
)
    requires
        are_messages(m, c, walked),
        0 <= i <= walked.len(),
        forall|k: int| 0 <= k < walked.len() ==> from.0 <= numbered_by(#[trigger] walked[k]).0,
        forall|k: int| 0 <= k < found.len() ==> from.0 <= (#[trigger] found[k]).sequence.0,
    ensures
        peek::browse_from(m, c, expected, walked, i, size, found) matches Ok(page) ==> forall|
            k: int,
        | 0 <= k < page.len() ==> from.0 <= (#[trigger] page[k]).sequence.0,
    decreases walked.len() - i,
{
    if i < walked.len() && found.len() < size {
        let record = message::decoded_record(m[walked[i]])->Ok_0;
        assert(record.sequence == numbered_by(walked[i]));
        let next = if peek::passed_over(record, expected, c.issued_at) {
            found
        } else {
            found.push(message::delivery_of(record, peek::peeked_origin(record.state), None))
        };
        browsing_stays_behind(m, c, expected, walked, i + 1, size, next, from);
    }
}

} // verus!
