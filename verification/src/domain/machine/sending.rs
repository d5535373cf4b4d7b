//! What a sender is promised: a message is stored as it was sent, for as long as it is
//! to live, once, and for those who are to have it.

use vstd::prelude::*;

use crate::domain::codec;
use crate::domain::command::{CommandView, InputView, OutcomeView};
use crate::domain::error::ErrorView;
use crate::domain::identifier;
use crate::domain::keys;
use crate::domain::machine;
use crate::domain::machine::apply;
use crate::domain::machine::duplicate;
use crate::domain::machine::history;
use crate::domain::machine::lifecycle;
use crate::domain::machine::orderly;
use crate::domain::machine::send;
use crate::domain::machine::topic;
use crate::domain::message::{MessageState, RecordView, SequenceNumber};
use crate::domain::order;
use crate::domain::queue::{QueueConfig, QueueCounters};
use crate::domain::time::Timestamp;
use crate::storage;
use crate::storage::{Contents, OpView};

verus! {

// ---- what it is told in ----------------------------------------------------

/// The time that is `millis` behind another, or the last there is.
pub open spec fn behind(base: Timestamp, millis: u64) -> Timestamp {
    if base.0 + millis > 0xffff_ffff_ffff_ffff {
        Timestamp(0xffff_ffff_ffff_ffff)
    } else {
        Timestamp((base.0 + millis) as u64)
    }
}

/// The number behind another, or the last there is.
pub open spec fn next_to(n: u64) -> u64 {
    if n == 0xffff_ffff_ffff_ffff {
        n
    } else {
        (n + 1) as u64
    }
}

/// The end of a message's life, counted from `start`: what was asked for it decides, and
/// where nothing was, what its queue gives to every message. Without either it never
/// ends.
pub open spec fn ends_in_time(
    end: Option<Timestamp>,
    start: Timestamp,
    asked: Option<u64>,
    given: Option<u64>,
) -> bool {
    &&& asked matches Some(millis) ==> end == Some(behind(start, millis))
    &&& asked is None && given is Some ==> end == Some(behind(start, given->Some_0))
    &&& asked is None && given is None ==> end is None
}

/// Whether a stored message is the one that was sent at a time: what it says, when it
/// came, and that nobody has had it yet.
pub open spec fn is_as_sent(record: RecordView, input: InputView, sent_at: Timestamp) -> bool {
    &&& record.message_id == input.message_id
    &&& record.body == input.body
    &&& record.session_id == input.session_id
    &&& record.scheduled_enqueue_at == input.scheduled_enqueue_at
    &&& record.enqueued_at == sent_at
    &&& record.delivery_count == 0
    &&& record.dead_letter is None
    &&& input.envelope is None ==> record.envelope is None
    &&& input.envelope is Some ==> record.envelope is Some && record.envelope->Some_0.bytes
        == input.envelope->Some_0.bytes
    &&& input.scheduled_enqueue_at is None ==> record.state is Ready
    &&& input.scheduled_enqueue_at is Some ==> record.state is Scheduled
}

/// When the life of a message begins: when it is due, or at once.
pub open spec fn begins_at(input: InputView, sent_at: Timestamp) -> Timestamp {
    if input.scheduled_enqueue_at is Some {
        input.scheduled_enqueue_at->Some_0
    } else {
        sent_at
    }
}

/// How large a message counts: its envelope if it has one, or else its body.
pub open spec fn counts_as(input: InputView) -> nat {
    if input.envelope is Some {
        input.envelope->Some_0.bytes.len()
    } else {
        input.body.len()
    }
}

/// Whether a queue still remembers an identifier: it was sent, and the time for which
/// it is remembered has not ended.
pub open spec fn is_remembered(m: Contents, c: CommandView, id: Seq<char>) -> bool {
    machine::value_at::<Timestamp>(
        m,
        keys::duplicate_id_key(c.namespace, c.entity, id),
    ) matches Ok(Some(until)) && until.0 > c.issued_at.0
}

/// Whether message `i` of a send repeats an identifier: one that the queue remembers,
/// or one that came earlier in the same send. A message without one repeats nothing.
pub open spec fn is_repeated(m: Contents, c: CommandView, inputs: Seq<InputView>, i: int) -> bool {
    &&& inputs[i].message_id.len() > 0
    &&& is_remembered(m, c, inputs[i].message_id) || exists|j: int|
        0 <= j < i && (#[trigger] inputs[j]).message_id == inputs[i].message_id
}

/// The settings of the queue that a command names, if it is there.
pub open spec fn queue_named(m: Contents, c: CommandView) -> Option<QueueConfig> {
    match machine::value_at::<crate::domain::queue::QueueConfig>(
        m,
        keys::queue_config_key(c.namespace, c.entity),
    ) {
        Ok(found) => found,
        Err(_) => None,
    }
}

// ---- what is stored --------------------------------------------------------

/// A message that was sent to a queue is stored as it was sent, under the number that
/// was answered, and stands where receivers look for it: among the ready messages of
/// its session or of the queue, or among those that wait until they are due. It ends
/// when the sender asked, or else when the queue says, and while it is ready that end
/// is watched for.
pub proof fn messages_are_stored_as_they_were_sent(
    m: Contents,
    c: CommandView,
    sequence: SequenceNumber,
)
    requires
        orderly::orderly_command(c),
        lifecycle::sends_to_queue(m, c),
        apply::applied(m, c).0 == Ok::<OutcomeView, ErrorView>(OutcomeView::Sent { sequence }),
    ensures
        ({
            let after = apply::applied(m, c).1;
            let input = lifecycle::sent_inputs(c)[0];
            &&& queue_named(m, c) matches Some(config)
            &&& machine::message_at(after, c.namespace, c.entity, sequence) matches Ok(
                Some(record),
            )
            &&& record.sequence == sequence
            &&& is_as_sent(record, input, c.issued_at)
            &&& ends_in_time(
                record.expires_at,
                begins_at(input, c.issued_at),
                c.kind->Send_time_to_live_millis,
                config.default_time_to_live_millis,
            )
            &&& c.kind->Send_scheduled_enqueue_at matches Some(due) ==> after.dom().contains(
                keys::scheduled_key(c.namespace, c.entity, due, sequence),
            )
            &&& c.kind->Send_scheduled_enqueue_at is None ==> {
                &&& c.kind->Send_session_id matches Some(id) ==> after.dom().contains(
                    keys::session_ready_key(c.namespace, c.entity, id, sequence),
                )
                &&& c.kind->Send_session_id is None ==> after.dom().contains(
                    keys::ready_key(c.namespace, c.entity, sequence),
                )
                &&& record.expires_at matches Some(at) ==> after.dom().contains(
                    keys::expiry_key(c.namespace, c.entity, at, sequence),
                )
            }
        }),
{
    let config = machine::config_of(m, c)->Ok_0;
    let input = lifecycle::sent_input(c);
    assert(lifecycle::sent_inputs(c)[0] == input);
    assert(queue_named(m, c) == Some(config)) by {
        sends_find_their_queue(m, c);
    }
    new_records_are_as_sent(c, input, sequence, config.default_time_to_live_millis);
    lifecycle::sent_messages_are_stored(m, c, sequence);
    if c.kind->Send_scheduled_enqueue_at is None {
        lifetimes_are_watched(m, c, sequence);
    }
}

proof fn sends_find_their_queue(m: Contents, c: CommandView)
    requires
        lifecycle::sends_to_queue(m, c),
        apply::applied(m, c).0 is Ok,
    ensures
        machine::config_of(m, c) is Ok,
        queue_named(m, c) == Some(machine::config_of(m, c)->Ok_0),
{
}

/// What is stored of a message is what was sent.
proof fn new_records_are_as_sent(
    c: CommandView,
    input: InputView,
    sequence: SequenceNumber,
    given: Option<u64>,
)
    requires
        orderly::orderly_input(input),
    ensures
        ({
            let record = send::new_record(
                c,
                input,
                sequence,
                send::effective_lifetime(input.time_to_live_millis, given),
            );
            &&& orderly::orderly_record(record)
            &&& record.sequence == sequence
            &&& is_as_sent(record, input, c.issued_at)
            &&& ends_in_time(
                record.expires_at,
                begins_at(input, c.issued_at),
                input.time_to_live_millis,
                given,
            )
        }),
{
    orderly::new_records_are_orderly(
        c,
        input,
        sequence,
        send::effective_lifetime(input.time_to_live_millis, given),
    );
}

/// The end of a message that is ready is watched for.
proof fn lifetimes_are_watched(m: Contents, c: CommandView, sequence: SequenceNumber)
    requires
        lifecycle::sends_to_queue(m, c),
        apply::applied(m, c).0 == Ok::<OutcomeView, ErrorView>(OutcomeView::Sent { sequence }),
        c.kind->Send_scheduled_enqueue_at is None,
    ensures
        lifecycle::sent_record(c, machine::config_of(m, c)->Ok_0, sequence).expires_at matches Some(
            at,
        ) ==> apply::applied(m, c).1.dom().contains(
            keys::expiry_key(c.namespace, c.entity, at, sequence),
        ),
{
    broadcast use history::one_more_change;

    lifecycle::keys_begin_with_their_tags();
    reveal_with_fuel(send::stored_from, 2);
    reveal_with_fuel(send::numbers, 2);
    let config = machine::config_of(m, c)->Ok_0;
    let record = lifecycle::sent_record(c, config, sequence);
    let counters = machine::counters_of(m, c)->Ok_0;
    let inputs = seq![lifecycle::sent_input(c)];
    let (staged, stored) = duplicate::history(m, c, config, inputs, Seq::empty())->Ok_0;
    assert(send::numbers(counters.next_sequence, 1)[0] == SequenceNumber(counters.next_sequence));
    let sent = send::stored_from(c, config, inputs, stored, 0, (staged, counters.next_sequence));
    assert(sent.0 == send::stored_changes(c, record, staged));
}

// ---- what is answered ------------------------------------------------------

/// Whether a queue takes messages from senders: it is there, and neither a topic, a
/// dead-letter queue nor a subscription.
pub open spec fn takes_messages(m: Contents, c: CommandView) -> bool {
    &&& !m.dom().contains(keys::topic_config_key(c.namespace, c.entity))
    &&& !identifier::names_dead_letter_queue(c.entity)
    &&& !topic::is_subscription(m, c.namespace, c.entity)
    &&& machine::value_at::<QueueConfig>(
        m,
        keys::queue_config_key(c.namespace, c.entity),
    ) matches Ok(Some(_))
}

/// Whether what a queue remembers of the identifiers of a send can be read.
pub open spec fn memory_is_legible(m: Contents, c: CommandView) -> bool {
    forall|i: int|
        0 <= i < lifecycle::sent_inputs(c).len() ==> machine::value_at::<Timestamp>(
            m,
            keys::duplicate_id_key(
                c.namespace,
                c.entity,
                (#[trigger] lifecycle::sent_inputs(c)[i]).message_id,
            ),
        ) is Ok
}

/// A message that fits its queue is taken: it names a session exactly when the queue
/// has them, and is no larger than the queue allows. It is stored under the next
/// number, unless the queue detects duplicates and it is one; then it is suppressed.
pub proof fn fitting_messages_are_taken(m: Contents, c: CommandView)
    requires
        orderly::orderly(m),
        c.kind is Send,
        machine::applied_time(m)->Ok_0.0 <= c.issued_at.0,
        takes_messages(m, c),
        memory_is_legible(m, c),
        queue_named(m, c)->Some_0.requires_session == (c.kind->Send_session_id is Some),
        counts_as(lifecycle::sent_inputs(c)[0]) <= queue_named(m, c)->Some_0.max_message_bytes,
    ensures
        ({
            let sequence = SequenceNumber(machine::next_number(m, c.namespace, c.entity));
            apply::applied(m, c).0 == Ok::<OutcomeView, ErrorView>(
                if queue_named(m, c)->Some_0.requires_duplicate_detection
                    && c.kind->Send_message_id.len() > 0 && is_remembered(
                    m,
                    c,
                    c.kind->Send_message_id,
                ) {
                    OutcomeView::DuplicateSuppressed { sequence }
                } else {
                    OutcomeView::Sent { sequence }
                },
            )
        }),
        machine::next_number(apply::applied(m, c).1, c.namespace, c.entity) == next_to(
            machine::next_number(m, c.namespace, c.entity),
        ),
{
    broadcast use history::one_more_change;

    lifecycle::keys_begin_with_their_tags();
    orderly::clocks_and_counters_are_legible(m, c);
    reveal_with_fuel(send::fault_from, 2);
    reveal_with_fuel(send::stored_from, 2);
    reveal_with_fuel(send::numbers, 2);
    reveal_with_fuel(duplicate::all_judged, 2);
    let config = machine::config_of(m, c)->Ok_0;
    let inputs = seq![lifecycle::sent_input(c)];
    assert(lifecycle::sent_inputs(c)[0] == inputs[0]);
    assert(!send::sessions_differ(config, inputs));
    assert(!duplicate::named_before(inputs, 0));
    let counters = machine::counters_of(m, c)->Ok_0;
    assert(send::numbers(counters.next_sequence, 1)[0] == SequenceNumber(counters.next_sequence));
    let (staged, stored) = duplicate::history(m, c, config, inputs, Seq::empty())->Ok_0;
    let sent = send::stored_from(c, config, inputs, stored, 0, (staged, counters.next_sequence));
    codec::stored_values_read_back::<QueueCounters>(
        QueueCounters { next_sequence: sent.1, ..counters },
    );
}

/// A message that does not fit its queue is refused, with what is wrong with it, and
/// nothing is changed.
pub proof fn misfits_are_refused(m: Contents, c: CommandView)
    requires
        c.kind is Send || c.kind is SendBatch,
        machine::applied_time(m) matches Ok(time) && time.0 <= c.issued_at.0,
        !m.dom().contains(keys::topic_config_key(c.namespace, c.entity)),
        lifecycle::sent_inputs(c).len() > 0,
    ensures
        identifier::names_dead_letter_queue(c.entity) ==> apply::applied(m, c) == (
            Err::<OutcomeView, ErrorView>(ErrorView::DeadLetterQueueIsReserved),
            m,
        ),
        !identifier::names_dead_letter_queue(c.entity) && topic::is_subscription(
            m,
            c.namespace,
            c.entity,
        ) ==> apply::applied(m, c) == (
            Err::<OutcomeView, ErrorView>(ErrorView::SubscriptionSendNotAllowed),
            m,
        ),
        !identifier::names_dead_letter_queue(c.entity) && !topic::is_subscription(
            m,
            c.namespace,
            c.entity,
        ) && !m.dom().contains(keys::queue_config_key(c.namespace, c.entity)) ==> apply::applied(
            m,
            c,
        ) == (Err::<OutcomeView, ErrorView>(ErrorView::QueueNotFound), m),
        takes_messages(m, c) ==> ({
            let first = lifecycle::sent_inputs(c)[0];
            let config = queue_named(m, c)->Some_0;
            &&& config.requires_session && first.session_id is None ==> apply::applied(m, c) == (
                Err::<OutcomeView, ErrorView>(ErrorView::SessionRequired),
                m,
            )
            &&& !config.requires_session && first.session_id is Some ==> apply::applied(m, c) == (
                Err::<OutcomeView, ErrorView>(ErrorView::SessionNotSupported),
                m,
            )
            &&& config.requires_session == (first.session_id is Some) && counts_as(first)
                > config.max_message_bytes ==> apply::applied(m, c) == (
                Err::<OutcomeView, ErrorView>(
                    ErrorView::MessageTooLarge {
                        body_bytes: counts_as(first) as usize,
                        maximum_bytes: config.max_message_bytes,
                    },
                ),
                m,
            )
        }),
{
    assert(lifecycle::sent_inputs(c)[0] == if c.kind is Send {
        lifecycle::sent_input(c)
    } else {
        lifecycle::sent_inputs(c)[0]
    });
}

// ---- batches ---------------------------------------------------------------

/// What a queue makes of the identifiers of a send: a repeated one is not stored.
proof fn repeats_are_told(
    m: Contents,
    c: CommandView,
    config: QueueConfig,
    inputs: Seq<InputView>,
    k: int,
    state: duplicate::HistoryState,
)
    requires
        0 <= k <= inputs.len(),
        state.1.len() == k,
        forall|i: int| 0 <= i < k ==> #[trigger] state.1[i] == !is_repeated(m, c, inputs, i),
    ensures
        duplicate::all_judged(m, c, config, inputs, k, state) matches Ok(judged) ==> {
            &&& judged.1.len() == inputs.len()
            &&& forall|i: int|
                0 <= i < inputs.len() ==> #[trigger] judged.1[i] == !is_repeated(m, c, inputs, i)
        },
    decreases inputs.len() - k,
{
    if k < inputs.len() {
        if let Ok(next) = duplicate::judged(m, c, config, inputs, k, state) {
            assert(next.1[k] == !is_repeated(m, c, inputs, k));
            repeats_are_told(m, c, config, inputs, k + 1, next);
        }
    }
}

/// Whether message `i` of a send is taken: the queue does not detect duplicates, or it
/// repeats nothing.
pub open spec fn is_taken(m: Contents, c: CommandView, i: int) -> bool {
    !(queue_named(m, c)->Some_0.requires_duplicate_detection && is_repeated(
        m,
        c,
        lifecycle::sent_inputs(c),
        i,
    ))
}

/// Which of the first `n` messages of a send are taken.
pub open spec fn taken(m: Contents, c: CommandView, n: int) -> Set<int> {
    Set::new(|i: int| 0 <= i < n && is_taken(m, c, i))
}

proof fn taken_messages_are_counted(m: Contents, c: CommandView, stored: Seq<bool>, n: int)
    requires
        0 <= n <= stored.len(),
        forall|i: int| 0 <= i < stored.len() ==> #[trigger] stored[i] == is_taken(m, c, i),
    ensures
        taken(m, c, n).finite(),
        taken(m, c, n).len() == send::stored_count(stored, n),
    decreases n,
{
    if n == 0 {
        assert(taken(m, c, 0) =~= Set::empty());
    } else {
        taken_messages_are_counted(m, c, stored, n - 1);
        assert(stored[n - 1] == is_taken(m, c, n - 1));
        if is_taken(m, c, n - 1) {
            assert(taken(m, c, n) =~= taken(m, c, n - 1).insert(n - 1));
        } else {
            assert(taken(m, c, n) =~= taken(m, c, n - 1));
        }
    }
}

proof fn batches_find_their_queue(m: Contents, c: CommandView)
    requires
        c.kind is SendBatch,
        apply::applied(m, c).0 matches Ok(OutcomeView::BatchSent { .. }),
    ensures
        ({
            let config = machine::config_of(m, c)->Ok_0;
            let judged = duplicate::history(
                m,
                c,
                config,
                lifecycle::sent_inputs(c),
                Seq::empty(),
            );
            &&& machine::config_of(m, c) is Ok
            &&& queue_named(m, c) == Some(config)
            &&& judged is Ok
            &&& apply::applied(m, c).0->Ok_0->BatchSent_stored == send::clamped(
                send::stored_count(judged->Ok_0.1, judged->Ok_0.1.len() as int),
            )
        }),
{
}

/// Each message of a batch that repeats nothing is stored as it was sent, under the
/// number that was answered for it; one that does is not stored. The answer tells how
/// many were. When the queue has run out of numbers, and several messages share the
/// last one, nothing is said of what stands under it.
pub proof fn batches_are_stored_as_they_were_sent(
    m: Contents,
    c: CommandView,
    sequences: Seq<SequenceNumber>,
    i: int,
)
    requires
        orderly::orderly_command(c),
        c.kind is SendBatch,
        apply::applied(m, c).0 matches Ok(
            OutcomeView::BatchSent { sequences: given, .. },
        ) && given == sequences,
        0 <= i < c.kind->SendBatch_messages.len(),
        forall|j: int| 0 <= j < sequences.len() && j != i ==> sequences[j] != sequences[i],
    ensures
        ({
            let after = apply::applied(m, c).1;
            let input = c.kind->SendBatch_messages[i];
            let now = machine::message_at(after, c.namespace, c.entity, sequences[i]);
            &&& sequences.len() == c.kind->SendBatch_messages.len()
            &&& queue_named(m, c) matches Some(config)
            &&& is_taken(m, c, i) ==> {
                &&& now matches Ok(Some(record))
                &&& record.sequence == sequences[i]
                &&& is_as_sent(record, input, c.issued_at)
                &&& ends_in_time(
                    record.expires_at,
                    begins_at(input, c.issued_at),
                    input.time_to_live_millis,
                    config.default_time_to_live_millis,
                )
            }
            &&& !is_taken(m, c, i) ==> now == machine::message_at(
                m,
                c.namespace,
                c.entity,
                sequences[i],
            )
        }),
{
    let config = machine::config_of(m, c)->Ok_0;
    let inputs = lifecycle::sent_inputs(c);
    batches_find_their_queue(m, c);
    if config.requires_duplicate_detection {
        repeats_are_told(m, c, config, inputs, 0, (Seq::empty(), Seq::empty()));
    }
    new_records_are_as_sent(c, inputs[i], sequences[i], config.default_time_to_live_millis);
    lifecycle::batches_are_stored(m, c, sequences, i);
}

/// The answer to a batch tells how many of its messages were taken.
pub proof fn batches_are_counted(m: Contents, c: CommandView)
    requires
        c.kind is SendBatch,
        apply::applied(m, c).0 matches Ok(OutcomeView::BatchSent { .. }),
        c.kind->SendBatch_messages.len() <= u32::MAX,
    ensures
        apply::applied(m, c).0->Ok_0->BatchSent_stored == taken(
            m,
            c,
            c.kind->SendBatch_messages.len() as int,
        ).len(),
{
    let config = machine::config_of(m, c)->Ok_0;
    let inputs = lifecycle::sent_inputs(c);
    batches_find_their_queue(m, c);
    let stored = duplicate::history(m, c, config, inputs, Seq::empty())->Ok_0.1;
    if config.requires_duplicate_detection {
        repeats_are_told(m, c, config, inputs, 0, (Seq::empty(), Seq::empty()));
    }
    taken_messages_are_counted(m, c, stored, inputs.len() as int);
    counts_stay_small(stored, inputs.len() as int);
}

proof fn counts_stay_small(stored: Seq<bool>, n: int)
    requires
        0 <= n,
    ensures
        send::stored_count(stored, n) <= n,
    decreases n,
{
    if n > 0 {
        counts_stay_small(stored, n - 1);
    }
}

/// Whether every message of a batch fits the queue.
pub open spec fn all_fit(m: Contents, c: CommandView) -> bool {
    let config = queue_named(m, c)->Some_0;
    forall|i: int|
        0 <= i < c.kind->SendBatch_messages.len() ==> {
            let input = #[trigger] c.kind->SendBatch_messages[i];
            &&& config.requires_session == (input.session_id is Some)
            &&& counts_as(input) <= config.max_message_bytes
            &&& input.session_id == c.kind->SendBatch_messages[0].session_id
        }
}

proof fn fitting_inputs_have_no_fault(config: QueueConfig, inputs: Seq<InputView>, k: int)
    requires
        0 <= k <= inputs.len(),
        forall|i: int|
            0 <= i < inputs.len() ==> config.requires_session == ((#[trigger] inputs[i]).session_id
                is Some) && counts_as(inputs[i]) <= config.max_message_bytes,
    ensures
        send::fault_from(config, inputs, k) is None,
    decreases inputs.len() - k,
{
    if k < inputs.len() {
        assert(config.requires_session == (inputs[k].session_id is Some));
        fitting_inputs_have_no_fault(config, inputs, k + 1);
    }
}

proof fn legible_memory_is_judged(
    m: Contents,
    c: CommandView,
    config: QueueConfig,
    inputs: Seq<InputView>,
    k: int,
    state: duplicate::HistoryState,
)
    requires
        0 <= k <= inputs.len(),
        forall|i: int|
            0 <= i < inputs.len() ==> machine::value_at::<Timestamp>(
                m,
                keys::duplicate_id_key(c.namespace, c.entity, (#[trigger] inputs[i]).message_id),
            ) is Ok,
    ensures
        duplicate::all_judged(m, c, config, inputs, k, state) is Ok,
    decreases inputs.len() - k,
{
    if k < inputs.len() {
        assert(machine::value_at::<Timestamp>(
            m,
            keys::duplicate_id_key(c.namespace, c.entity, inputs[k].message_id),
        ) is Ok);
        if let Ok(next) = duplicate::judged(m, c, config, inputs, k, state) {
            legible_memory_is_judged(m, c, config, inputs, k + 1, next);
        }
    }
}

pub(crate) proof fn numbers_follow_each_other(next: u64, n: nat, i: int)
    requires
        0 <= i < n,
        next + n <= u64::MAX,
    ensures
        send::numbers(next, n).len() == n,
        send::numbers(next, n)[i] == SequenceNumber((next + i) as u64),
    decreases n,
{
    lifecycle::as_many_numbers_as_asked_for(next, n);
    if i > 0 {
        numbers_follow_each_other(crate::domain::queue::bump(next), (n - 1) as nat, i - 1);
    }
}

/// A batch of messages that fit their queue is taken whole, and its messages get the
/// next numbers in their order.
pub proof fn fitting_batches_are_taken(m: Contents, c: CommandView, i: int)
    requires
        orderly::orderly(m),
        c.kind is SendBatch,
        machine::applied_time(m)->Ok_0.0 <= c.issued_at.0,
        takes_messages(m, c),
        memory_is_legible(m, c),
        all_fit(m, c),
        0 <= i < c.kind->SendBatch_messages.len(),
        machine::next_number(m, c.namespace, c.entity) + c.kind->SendBatch_messages.len()
            <= u64::MAX,
    ensures
        apply::applied(m, c).0 matches Ok(OutcomeView::BatchSent { sequences, .. }) && {
            &&& sequences.len() == c.kind->SendBatch_messages.len()
            &&& sequences[i] == SequenceNumber(
                (machine::next_number(m, c.namespace, c.entity) + i) as u64,
            )
        },
{
    orderly::clocks_and_counters_are_legible(m, c);
    let config = machine::config_of(m, c)->Ok_0;
    let inputs = lifecycle::sent_inputs(c);
    fitting_inputs_have_no_fault(config, inputs, 0);
    legible_memory_is_judged(m, c, config, inputs, 0, (Seq::empty(), Seq::empty()));
    assert(!send::sessions_differ(config, inputs));
    numbers_follow_each_other(
        machine::next_number(m, c.namespace, c.entity),
        inputs.len(),
        i,
    );
}

/// A batch without messages, or on a session queue with messages of several sessions,
/// is refused whole; and so is one with a message that does not fit, and nothing of it
/// is stored.
pub proof fn misfit_batches_are_refused(m: Contents, c: CommandView, i: int)
    requires
        c.kind is SendBatch,
        machine::applied_time(m) matches Ok(time) && time.0 <= c.issued_at.0,
    ensures
        c.kind->SendBatch_messages.len() == 0 ==> apply::applied(m, c) == (
            Err::<OutcomeView, ErrorView>(ErrorView::EmptyMessageBatch),
            m,
        ),
        takes_messages(m, c) && 0 <= i < c.kind->SendBatch_messages.len() && {
            let config = queue_named(m, c)->Some_0;
            let input = c.kind->SendBatch_messages[i];
            ||| config.requires_session != (input.session_id is Some)
            ||| counts_as(input) > config.max_message_bytes
            ||| input.session_id != c.kind->SendBatch_messages[0].session_id
        } ==> apply::applied(m, c).0 is Err && apply::applied(m, c).1 == m,
{
    let config = machine::config_of(m, c)->Ok_0;
    let inputs = lifecycle::sent_inputs(c);
    if takes_messages(m, c) && 0 <= i < inputs.len() {
        if send::fault_from(config, inputs, 0) is None {
            faultless_inputs_fit(config, inputs, 0, i);
            faultless_inputs_fit(config, inputs, 0, 0);
        }
    }
}

proof fn faultless_inputs_fit(config: QueueConfig, inputs: Seq<InputView>, k: int, i: int)
    requires
        0 <= k <= i < inputs.len(),
        send::fault_from(config, inputs, k) is None,
    ensures
        config.requires_session == (inputs[i].session_id is Some),
        counts_as(inputs[i]) <= config.max_message_bytes,
    decreases i - k,
{
    if k < i {
        faultless_inputs_fit(config, inputs, k + 1, i);
    }
}

// ---- what is remembered ----------------------------------------------------

/// Entries that watch over identifiers are those of one identifier and one time.
proof fn watches_share_no_key(
    c: CommandView,
    at: Timestamp,
    id: Seq<char>,
    other_at: Timestamp,
    other: Seq<char>,
)
    requires
        keys::duplicate_expiry_key(c.namespace, c.entity, at, id) == keys::duplicate_expiry_key(
            c.namespace,
            c.entity,
            other_at,
            other,
        ),
    ensures
        at == other_at,
        id == other,
{
    let prefix = keys::duplicate_expiry_prefix_key(c.namespace, c.entity);
    order::texts_read_back(prefix, at, id);
    order::texts_read_back(prefix, other_at, other);
}

proof fn identifiers_are_remembered_one_by_one(
    m: Contents,
    c: CommandView,
    config: QueueConfig,
    inputs: Seq<InputView>,
    k: int,
    state: duplicate::HistoryState,
    i: int,
)
    requires
        order::clean(c.namespace),
        order::clean(c.entity),
        0 <= k <= inputs.len(),
        0 <= i < inputs.len(),
        inputs[i].message_id.len() > 0,
        !is_repeated(m, c, inputs, i),
        duplicate::all_judged(m, c, config, inputs, k, state) is Ok,
    ensures
        ({
            let before = storage::apply_ops(m, state.0);
            let after = storage::apply_ops(
                m,
                duplicate::all_judged(m, c, config, inputs, k, state)->Ok_0.0,
            );
            let id = inputs[i].message_id;
            let until = behind(c.issued_at, config.duplicate_detection_history_millis);
            let key = keys::duplicate_id_key(c.namespace, c.entity, id);
            let watch = keys::duplicate_expiry_key(c.namespace, c.entity, until, id);
            if k <= i {
                &&& after.dom().contains(key)
                &&& after[key] == codec::encoded::<Timestamp>(until)
                &&& after.dom().contains(watch)
            } else {
                &&& lifecycle::agree_on(before, after, key)
                &&& lifecycle::agree_on(before, after, watch)
            }
        }),
    decreases inputs.len() - k,
{
    broadcast use history::one_more_change;

    lifecycle::keys_begin_with_their_tags();
    if k < inputs.len() {
        let next = duplicate::judged(m, c, config, inputs, k, state)->Ok_0;
        let id = inputs[i].message_id;
        let other = inputs[k].message_id;
        let until = behind(c.issued_at, config.duplicate_detection_history_millis);
        let key = keys::duplicate_id_key(c.namespace, c.entity, id);
        let watch = keys::duplicate_expiry_key(c.namespace, c.entity, until, id);
        if k > i && id != other {
            if key == keys::duplicate_id_key(c.namespace, c.entity, other) {
                order::remembered_identifiers_share_no_key(
                    c.namespace,
                    c.entity,
                    id,
                    c.namespace,
                    c.entity,
                    other,
                );
            }
            assert forall|at: Timestamp| watch != #[trigger] keys::duplicate_expiry_key(
                c.namespace,
                c.entity,
                at,
                other,
            ) by {
                if watch == keys::duplicate_expiry_key(c.namespace, c.entity, at, other) {
                    watches_share_no_key(c, until, id, at, other);
                }
            }
        }
        if k == i {
            assert(!duplicate::named_before(inputs, i));
        }
        if k > i && id == other {
            assert(inputs[i].message_id == inputs[k].message_id);
            assert(duplicate::named_before(inputs, k));
        }
        identifiers_are_remembered_one_by_one(m, c, config, inputs, k + 1, next, i);
    }
}

proof fn storing_leaves_memory_alone(
    m: Contents,
    c: CommandView,
    config: QueueConfig,
    inputs: Seq<InputView>,
    stored: Seq<bool>,
    k: int,
    state: send::SendState,
    key: Seq<u8>,
)
    requires
        key.len() > 0,
        key[0] == keys::TAG_DUPLICATE_ID || key[0] == keys::TAG_DUPLICATE_EXPIRY,
    ensures
        lifecycle::agree_on(
            storage::apply_ops(m, state.0),
            storage::apply_ops(m, send::stored_from(c, config, inputs, stored, k, state).0),
            key,
        ),
    decreases inputs.len() - k,
{
    broadcast use history::one_more_change;

    lifecycle::keys_begin_with_their_tags();
    if k < inputs.len() {
        let record = send::new_record(
            c,
            inputs[k],
            SequenceNumber(state.1),
            send::effective_lifetime(
                inputs[k].time_to_live_millis,
                config.default_time_to_live_millis,
            ),
        );
        let changes = if stored[k] {
            send::stored_changes(c, record, state.0)
        } else {
            state.0
        };
        assert(lifecycle::agree_on(
            storage::apply_ops(m, state.0),
            storage::apply_ops(m, changes),
            key,
        ));
        storing_leaves_memory_alone(
            m,
            c,
            config,
            inputs,
            stored,
            k + 1,
            (changes, crate::domain::queue::bump(state.1)),
            key,
        );
    }
}

proof fn sends_change_the_store(m: Contents, c: CommandView, key: Seq<u8>)
    requires
        c.kind is Send || c.kind is SendBatch,
        !m.dom().contains(keys::topic_config_key(c.namespace, c.entity)),
        apply::applied(m, c).0 is Ok,
        key.len() > 0,
        key[0] == keys::TAG_DUPLICATE_ID || key[0] == keys::TAG_DUPLICATE_EXPIRY,
    ensures
        ({
            let config = machine::config_of(m, c)->Ok_0;
            let judged = duplicate::history(
                m,
                c,
                config,
                lifecycle::sent_inputs(c),
                Seq::empty(),
            );
            &&& machine::config_of(m, c) is Ok
            &&& queue_named(m, c) == Some(config)
            &&& judged is Ok
            &&& lifecycle::agree_on(
                storage::apply_ops(
                    m,
                    send::stored_from(
                        c,
                        config,
                        lifecycle::sent_inputs(c),
                        judged->Ok_0.1,
                        0,
                        (judged->Ok_0.0, machine::counters_of(m, c)->Ok_0.next_sequence),
                    ).0,
                ),
                apply::applied(m, c).1,
                key,
            )
        }),
{
    broadcast use history::one_more_change;

    lifecycle::keys_begin_with_their_tags();
}

/// A queue that detects duplicates remembers every identifier it takes, from the time
/// of the send for as long as it is set to, and watches for the end of that time.
pub proof fn taken_identifiers_are_remembered(m: Contents, c: CommandView, i: int)
    requires
        orderly::orderly_command(c),
        c.kind is Send || c.kind is SendBatch,
        !m.dom().contains(keys::topic_config_key(c.namespace, c.entity)),
        apply::applied(m, c).0 is Ok,
        queue_named(m, c)->Some_0.requires_duplicate_detection,
        0 <= i < lifecycle::sent_inputs(c).len(),
        lifecycle::sent_inputs(c)[i].message_id.len() > 0,
        !is_repeated(m, c, lifecycle::sent_inputs(c), i),
    ensures
        ({
            let after = apply::applied(m, c).1;
            let id = lifecycle::sent_inputs(c)[i].message_id;
            let until = behind(
                c.issued_at,
                queue_named(m, c)->Some_0.duplicate_detection_history_millis,
            );
            &&& machine::value_at::<Timestamp>(
                after,
                keys::duplicate_id_key(c.namespace, c.entity, id),
            ) == Ok::<Option<Timestamp>, ErrorView>(Some(until))
            &&& after.dom().contains(
                keys::duplicate_expiry_key(c.namespace, c.entity, until, id),
            )
        }),
{
    let inputs = lifecycle::sent_inputs(c);
    let id = inputs[i].message_id;
    let config = machine::config_of(m, c)->Ok_0;
    let until = behind(c.issued_at, config.duplicate_detection_history_millis);
    let key = keys::duplicate_id_key(c.namespace, c.entity, id);
    let watch = keys::duplicate_expiry_key(c.namespace, c.entity, until, id);
    lifecycle::keys_begin_with_their_tags();
    sends_change_the_store(m, c, key);
    sends_change_the_store(m, c, watch);
    let (staged, stored) = duplicate::history(m, c, config, inputs, Seq::empty())->Ok_0;
    let next = machine::counters_of(m, c)->Ok_0.next_sequence;
    identifiers_are_remembered_one_by_one(m, c, config, inputs, 0, (Seq::empty(), Seq::empty()), i);
    storing_leaves_memory_alone(m, c, config, inputs, stored, 0, (staged, next), key);
    storing_leaves_memory_alone(m, c, config, inputs, stored, 0, (staged, next), watch);
    codec::stored_values_read_back::<Timestamp>(until);
}

} // verus!
