//! What the holder of a lock is promised: to settle the message, and nobody else does.

use vstd::prelude::*;

use crate::domain::command::{CommandView, KindView, OutcomeView};
use crate::domain::error::ErrorView;
use crate::domain::identifier;
use crate::domain::keys;
use crate::domain::machine;
use crate::domain::machine::apply;
use crate::domain::machine::history;
use crate::domain::machine::lifecycle;
use crate::domain::machine::numbering;
use crate::domain::machine::orderly;
use crate::domain::machine::receiving;
use crate::domain::machine::sending;
use crate::domain::machine::shared;
use crate::domain::message;
use crate::domain::message::{
    DeadLetterReasonView, DeliveryOrigin, EnvelopeView, LockToken, MessageState, RecordView,
    SequenceNumber,
};
use crate::domain::queue::QueueConfig;
use crate::domain::rule::PropertiesView;
use crate::domain::time::Timestamp;
use crate::storage;
use crate::storage::{Contents, OpView};

verus! {

// ---- what it is told in ----------------------------------------------------

/// The message under a number in the queue that a command names.
pub open spec fn stored(m: Contents, c: CommandView, n: SequenceNumber) -> Option<RecordView> {
    match machine::message_at(m, c.namespace, c.entity, n) {
        Ok(found) => found,
        Err(_) => None,
    }
}

/// Whether a token holds the lock of a message at the time of a command.
pub open spec fn holds(m: Contents, c: CommandView, n: SequenceNumber, token: LockToken) -> bool {
    &&& stored(m, c, n) matches Some(record)
    &&& record.state matches MessageState::Locked { token: held, locked_until, .. }
    &&& held == token
    &&& locked_until.0 > c.issued_at.0
}

/// The envelope that a settlement puts in place of the stored one.
pub open spec fn replacement(c: CommandView) -> Option<EnvelopeView> {
    match c.kind {
        KindView::Abandon { replacement_envelope, .. } => replacement_envelope,
        KindView::Defer { replacement_envelope, .. } => replacement_envelope,
        KindView::DeadLetter { replacement_envelope, .. } => replacement_envelope,
        _ => None,
    }
}

/// The envelope that a message has once it is settled: the octets of the new one, if
/// there is a new one, or else what it had.
pub open spec fn envelope_after(c: CommandView, record: RecordView) -> Option<EnvelopeView> {
    if replacement(c) is Some {
        Some(
            EnvelopeView {
                bytes: replacement(c)->Some_0.bytes,
                filter_properties: PropertiesView {
                    correlation_id: None,
                    message_id: None,
                    to: None,
                    reply_to: None,
                    subject: None,
                    session_id: None,
                    reply_to_session_id: None,
                    content_type: None,
                    application_properties: Seq::empty(),
                },
            },
        )
    } else {
        record.envelope
    }
}

/// Whether a new envelope, if there is one, is no larger than the queue allows.
pub open spec fn replacement_fits(m: Contents, c: CommandView) -> bool {
    replacement(c) matches Some(envelope) ==> envelope.bytes.len() <= sending::queue_named(
        m,
        c,
    )->Some_0.max_message_bytes
}

/// Whether a message is back as it was, in the index it came from and out of the lock.
pub open spec fn is_back(
    after: Contents,
    c: CommandView,
    record: RecordView,
    envelope: Option<EnvelopeView>,
    origin: DeliveryOrigin,
) -> bool {
    let n = record.sequence;
    &&& machine::message_at(after, c.namespace, c.entity, n) matches Ok(Some(back))
    &&& receiving::same_message(back, record)
    &&& back.session_id == record.session_id
    &&& back.dead_letter == record.dead_letter
    &&& back.expires_at == record.expires_at
    &&& back.delivery_count == record.delivery_count
    &&& back.envelope == envelope
    &&& origin == DeliveryOrigin::Ready ==> {
        &&& back.state is Ready
        &&& record.session_id is None ==> after.dom().contains(
            keys::ready_key(c.namespace, c.entity, n),
        )
        &&& record.session_id matches Some(id) ==> after.dom().contains(
            keys::session_ready_key(c.namespace, c.entity, id, n),
        )
    }
    &&& origin == DeliveryOrigin::Deferred ==> {
        &&& back.state is Deferred
        &&& after.dom().contains(keys::deferred_key(c.namespace, c.entity, n))
    }
    &&& origin != DeliveryOrigin::Scheduled
}

/// Whether a message has been delivered as often as its queue allows. In a dead-letter
/// queue there is no such limit.
pub open spec fn was_delivered_enough(
    c: CommandView,
    config: QueueConfig,
    record: RecordView,
) -> bool {
    &&& !identifier::names_dead_letter_queue(c.entity)
    &&& record.delivery_count >= config.max_delivery_count
}

// ---- who settles -----------------------------------------------------------

/// Whoever does not hold a lock hears why: there is no such message, it is not locked,
/// another token holds it, or the lock has ended.
pub proof fn others_hear_why(m: Contents, c: CommandView, n: SequenceNumber, token: LockToken)
    requires
        lifecycle::settled_by(c) == Some((n, token)),
        machine::applied_time(m) matches Ok(time) && time.0 <= c.issued_at.0,
        sending::queue_named(m, c) is Some,
        machine::message_at(m, c.namespace, c.entity, n) is Ok,
    ensures
        match stored(m, c, n) {
            None => apply::applied(m, c) == (
                Err::<OutcomeView, ErrorView>(ErrorView::MessageNotFound { sequence: n }),
                m,
            ),
            Some(record) => match record.state {
                MessageState::Locked { token: held, locked_until, .. } => {
                    &&& held != token ==> apply::applied(m, c) == (
                        Err::<OutcomeView, ErrorView>(
                            ErrorView::LockTokenMismatch { sequence: n },
                        ),
                        m,
                    )
                    &&& held == token && locked_until.0 <= c.issued_at.0 ==> apply::applied(m, c)
                        == (
                        Err::<OutcomeView, ErrorView>(
                            ErrorView::LockExpired { sequence: n, locked_until },
                        ),
                        m,
                    )
                },
                _ => apply::applied(m, c) == (
                    Err::<OutcomeView, ErrorView>(ErrorView::MessageNotLocked { sequence: n }),
                    m,
                ),
            },
        },
{
}

/// A new envelope that is larger than the queue allows is refused.
pub proof fn large_replacements_are_refused(
    m: Contents,
    c: CommandView,
    n: SequenceNumber,
    token: LockToken,
)
    requires
        lifecycle::settled_by(c) == Some((n, token)),
        machine::applied_time(m) matches Ok(time) && time.0 <= c.issued_at.0,
        sending::queue_named(m, c) is Some,
        holds(m, c, n, token),
        !replacement_fits(m, c),
    ensures
        apply::applied(m, c) == (
            Err::<OutcomeView, ErrorView>(
                ErrorView::MessageTooLarge {
                    body_bytes: replacement(c)->Some_0.bytes.len() as usize,
                    maximum_bytes: sending::queue_named(m, c)->Some_0.max_message_bytes,
                },
            ),
            m,
        ),
{
}

/// The holder of a lock completes the message: it is gone, with its lock and with what
/// watched for its end.
pub proof fn holders_complete(m: Contents, c: CommandView, n: SequenceNumber, token: LockToken)
    requires
        c.kind == (KindView::Complete { sequence: n, lock_token: token }),
        machine::applied_time(m) matches Ok(time) && time.0 <= c.issued_at.0,
        holds(m, c, n, token),
    ensures
        ({
            let after = apply::applied(m, c).1;
            let record = stored(m, c, n)->Some_0;
            &&& apply::applied(m, c).0 == Ok::<OutcomeView, ErrorView>(OutcomeView::Completed)
            &&& machine::message_at(after, c.namespace, c.entity, n) == Ok::<
                Option<RecordView>,
                ErrorView,
            >(None)
            &&& !after.dom().contains(
                keys::lock_key(
                    c.namespace,
                    c.entity,
                    record.state->Locked_locked_until,
                    n,
                ),
            )
            &&& record.expires_at matches Some(at) ==> !after.dom().contains(
                keys::expiry_key(c.namespace, c.entity, at, n),
            )
            &&& forall|other: SequenceNumber|
                other != n ==> #[trigger] machine::message_at(after, c.namespace, c.entity, other)
                    == machine::message_at(m, c.namespace, c.entity, other)
        }),
{
    broadcast use history::one_more_change;

    lifecycle::keys_begin_with_their_tags();
    let after = apply::applied(m, c).1;
    assert forall|other: SequenceNumber| other != n implies #[trigger] machine::message_at(
        after,
        c.namespace,
        c.entity,
        other,
    ) == machine::message_at(m, c.namespace, c.entity, other) by {
        receiving::numbers_tell_keys_apart(c.namespace, other, n);
    }
}

/// A message with a new envelope says the same, and can be stored as well.
proof fn replacements_are_put_in_place(
    m: Contents,
    c: CommandView,
    config: QueueConfig,
    record: RecordView,
)
    requires
        orderly::orderly_command(c),
        orderly::orderly_record(record),
        sending::queue_named(m, c) == Some(config),
        replacement_fits(m, c),
    ensures
        shared::with_envelope(config, record, replacement(c)) == Ok::<RecordView, ErrorView>(
            RecordView { envelope: envelope_after(c, record), ..record },
        ),
        orderly::orderly_record(RecordView { envelope: envelope_after(c, record), ..record }),
{
    orderly::envelopes_change_nothing_else(record, envelope_after(c, record));
}

pub(crate) proof fn returns_bring_back(
    m: Contents,
    c: CommandView,
    record: RecordView,
    until: Timestamp,
    origin: DeliveryOrigin,
    batch: Seq<OpView>,
)
    requires
        orderly::orderly_record(record),
        origin != DeliveryOrigin::Scheduled,
    ensures
        ({
            let changes = shared::returned(c, record, until, origin, batch)->Ok_0;
            let after = storage::apply_ops(m, changes);
            &&& shared::returned(c, record, until, origin, batch) is Ok
            &&& changes.len() > 0
            &&& is_back(after, c, record, record.envelope, origin)
            &&& !after.dom().contains(keys::lock_key(c.namespace, c.entity, until, record.sequence))
            &&& origin == DeliveryOrigin::Ready ==> (record.expires_at matches Some(at)
                ==> after.dom().contains(
                keys::expiry_key(c.namespace, c.entity, at, record.sequence),
            ))
        }),
{
    broadcast use history::one_more_change;

    lifecycle::keys_begin_with_their_tags();
    message::stored_messages_read_back(RecordView { state: MessageState::Ready, ..record });
    message::stored_messages_read_back(RecordView { state: MessageState::Deferred, ..record });
}

/// The holder of a lock gives a message up. If its life has ended, or if it was
/// delivered as often as the queue allows, it goes to the dead-letter queue, with that
/// reason. Otherwise it is back where it came from. The answer tells which.
pub proof fn holders_abandon(m: Contents, c: CommandView, n: SequenceNumber, token: LockToken)
    requires
        m.dom().finite(),
        numbering::sound(m),
        orderly::orderly_command(c),
        c.kind is Abandon,
        c.kind->Abandon_sequence == n,
        c.kind->Abandon_lock_token == token,
        machine::applied_time(m) matches Ok(time) && time.0 <= c.issued_at.0,
        sending::queue_named(m, c) is Some,
        machine::shadow_of(c.entity) is Ok,
        holds(m, c, n, token),
        replacement_fits(m, c),
    ensures
        ({
            let after = apply::applied(m, c).1;
            let record = stored(m, c, n)->Some_0;
            let config = sending::queue_named(m, c)->Some_0;
            let ended = receiving::is_over(record, c.issued_at);
            let enough = was_delivered_enough(c, config, record);
            &&& apply::applied(m, c).0 == Ok::<OutcomeView, ErrorView>(
                OutcomeView::Abandoned { dead_lettered: ended || enough },
            )
            &&& ended ==> receiving::is_buried(
                after,
                c,
                record,
                envelope_after(c, record),
                DeadLetterReasonView::TimeToLiveExpired,
                "the message exceeded its time to live"@,
            )
            &&& !ended && enough ==> receiving::is_buried(
                after,
                c,
                record,
                envelope_after(c, record),
                DeadLetterReasonView::MaxDeliveryCountExceeded,
                "the message reached its maximum delivery count"@,
            )
            &&& !ended && !enough ==> is_back(
                after,
                c,
                record,
                envelope_after(c, record),
                record.state->Locked_origin,
            )
            &&& !after.dom().contains(
                keys::lock_key(
                    c.namespace,
                    c.entity,
                    record.state->Locked_locked_until,
                    n,
                ),
            )
        }),
{
    let record = stored(m, c, n)->Some_0;
    let config = sending::queue_named(m, c)->Some_0;
    orderly::messages_stand_under_their_numbers(m, c.namespace, c.entity, n);
    numbering::locked_messages_came_from_an_index(m, c.namespace, c.entity, n);
    replacements_are_put_in_place(m, c, config, record);
    let kept = RecordView { envelope: envelope_after(c, record), ..record };
    abandons_take_their_step(m, c, n, token, config, kept);
    abandons_are_told(m, c, config, record, apply::applied(m, c).1);
}

proof fn abandons_are_told(
    m: Contents,
    c: CommandView,
    config: QueueConfig,
    record: RecordView,
    after: Contents,
)
    requires
        ({
            let kept = RecordView { envelope: envelope_after(c, record), ..record };
            &&& orderly::orderly_record(kept)
            &&& after == storage::apply_ops(
                m,
                abandon_changes(c, config, kept).push(apply::clock_change(c.issued_at)),
            )
        }),
        machine::shadow_of(c.entity) is Ok,
        record.state is Locked,
        record.state->Locked_origin != DeliveryOrigin::Scheduled,
    ensures
        ({
            let ended = receiving::is_over(record, c.issued_at);
            let enough = was_delivered_enough(c, config, record);
            &&& ended ==> receiving::is_buried(
                after,
                c,
                record,
                envelope_after(c, record),
                DeadLetterReasonView::TimeToLiveExpired,
                "the message exceeded its time to live"@,
            )
            &&& !ended && enough ==> receiving::is_buried(
                after,
                c,
                record,
                envelope_after(c, record),
                DeadLetterReasonView::MaxDeliveryCountExceeded,
                "the message reached its maximum delivery count"@,
            )
            &&& !ended && !enough ==> is_back(
                after,
                c,
                record,
                envelope_after(c, record),
                record.state->Locked_origin,
            )
            &&& !after.dom().contains(
                keys::lock_key(
                    c.namespace,
                    c.entity,
                    record.state->Locked_locked_until,
                    record.sequence,
                ),
            )
        }),
{
    let kept = RecordView { envelope: envelope_after(c, record), ..record };
    abandons_do_as_they_say(m, c, config, kept);
    settlements_step_the_clock(
        m,
        c,
        abandon_changes(c, config, kept),
        kept,
        kept.state->Locked_origin,
    );
    lifecycle::keys_begin_with_their_tags();
    if receiving::is_over(record, c.issued_at) {
        assert(receiving::is_buried(
            after,
            c,
            kept,
            kept.envelope,
            DeadLetterReasonView::TimeToLiveExpired,
            "the message exceeded its time to live"@,
        ));
    } else if was_delivered_enough(c, config, record) {
        assert(receiving::is_buried(
            after,
            c,
            kept,
            kept.envelope,
            DeadLetterReasonView::MaxDeliveryCountExceeded,
            "the message reached its maximum delivery count"@,
        ));
    } else {
        assert(is_back(after, c, kept, kept.envelope, kept.state->Locked_origin));
    }
    let lock = keys::lock_key(
        c.namespace,
        c.entity,
        record.state->Locked_locked_until,
        record.sequence,
    );
    assert(lock[0] == keys::TAG_LOCK && !after.dom().contains(lock));
}

/// What giving up a locked message changes.
spec fn abandon_changes(c: CommandView, config: QueueConfig, record: RecordView) -> Seq<OpView> {
    if receiving::is_over(record, c.issued_at) {
        shared::lifetime_over(c, record, Seq::empty())->Ok_0
    } else if was_delivered_enough(c, config, record) {
        shared::deliveries_over(c, record, Seq::empty())->Ok_0
    } else {
        shared::returned(
            c,
            record,
            record.state->Locked_locked_until,
            record.state->Locked_origin,
            Seq::empty(),
        )->Ok_0
    }
}

proof fn abandons_take_their_step(
    m: Contents,
    c: CommandView,
    n: SequenceNumber,
    token: LockToken,
    config: QueueConfig,
    kept: RecordView,
)
    requires
        c.kind is Abandon,
        c.kind->Abandon_sequence == n,
        c.kind->Abandon_lock_token == token,
        machine::applied_time(m) matches Ok(time) && time.0 <= c.issued_at.0,
        sending::queue_named(m, c) == Some(config),
        machine::shadow_of(c.entity) is Ok,
        holds(m, c, n, token),
        kept == (RecordView {
            envelope: envelope_after(c, stored(m, c, n)->Some_0),
            ..stored(m, c, n)->Some_0
        }),
        shared::with_envelope(config, stored(m, c, n)->Some_0, replacement(c)) == Ok::<
            RecordView,
            ErrorView,
        >(kept),
        kept.state->Locked_origin != DeliveryOrigin::Scheduled,
    ensures
        apply::applied(m, c) == (
            Ok::<OutcomeView, ErrorView>(
                OutcomeView::Abandoned {
                    dead_lettered: receiving::is_over(kept, c.issued_at) || was_delivered_enough(
                        c,
                        config,
                        kept,
                    ),
                },
            ),
            storage::apply_ops(
                m,
                abandon_changes(c, config, kept).push(apply::clock_change(c.issued_at)),
            ),
        ),
{
}

proof fn abandons_do_as_they_say(
    m: Contents,
    c: CommandView,
    config: QueueConfig,
    kept: RecordView,
)
    requires
        orderly::orderly_record(kept),
        machine::shadow_of(c.entity) is Ok,
        kept.state is Locked,
        kept.state->Locked_origin != DeliveryOrigin::Scheduled,
    ensures
        ({
            let after = storage::apply_ops(m, abandon_changes(c, config, kept));
            let ended = receiving::is_over(kept, c.issued_at);
            let enough = was_delivered_enough(c, config, kept);
            &&& ended ==> receiving::is_buried(
                after,
                c,
                kept,
                kept.envelope,
                DeadLetterReasonView::TimeToLiveExpired,
                "the message exceeded its time to live"@,
            )
            &&& !ended && enough ==> receiving::is_buried(
                after,
                c,
                kept,
                kept.envelope,
                DeadLetterReasonView::MaxDeliveryCountExceeded,
                "the message reached its maximum delivery count"@,
            )
            &&& !ended && !enough ==> is_back(
                after,
                c,
                kept,
                kept.envelope,
                kept.state->Locked_origin,
            )
            &&& !after.dom().contains(
                keys::lock_key(
                    c.namespace,
                    c.entity,
                    kept.state->Locked_locked_until,
                    kept.sequence,
                ),
            )
        }),
{
    orderly::descriptions_fit();
    if receiving::is_over(kept, c.issued_at) {
        ends_are_buried(
            m,
            c,
            kept,
            DeadLetterReasonView::TimeToLiveExpired,
            "the message exceeded its time to live"@,
        );
    } else if was_delivered_enough(c, config, kept) {
        ends_are_buried(
            m,
            c,
            kept,
            DeadLetterReasonView::MaxDeliveryCountExceeded,
            "the message reached its maximum delivery count"@,
        );
    } else {
        returns_bring_back(
            m,
            c,
            kept,
            kept.state->Locked_locked_until,
            kept.state->Locked_origin,
            Seq::empty(),
        );
    }
}

/// A message that goes to the dead-letter queue is buried, and its lock is gone.
proof fn ends_are_buried(
    m: Contents,
    c: CommandView,
    record: RecordView,
    reason: DeadLetterReasonView,
    description: Seq<char>,
)
    requires
        orderly::orderly_record(record),
        machine::shadow_of(c.entity) is Ok,
        record.state is Locked,
        <message::DeadLetterReason as crate::domain::wire::Wire>::fits(reason),
        <String as crate::domain::wire::Wire>::fits(description),
    ensures
        ({
            let changes = shared::dead_lettered(c, record, reason, description, Seq::empty())->Ok_0;
            let after = storage::apply_ops(m, changes);
            &&& shared::dead_lettered(c, record, reason, description, Seq::empty()) is Ok
            &&& changes.len() > 0
            &&& receiving::is_buried(after, c, record, record.envelope, reason, description)
            &&& !after.dom().contains(
                keys::lock_key(
                    c.namespace,
                    c.entity,
                    record.state->Locked_locked_until,
                    record.sequence,
                ),
            )
        }),
{
    broadcast use history::one_more_change;

    lifecycle::keys_begin_with_their_tags();
    orderly::dead_records_are_orderly(record, reason, description, c.issued_at);
    receiving::burials_bury(m, c, record, reason, description, Seq::empty());
}

/// The clock changes nothing of what a settlement has done.
proof fn settlements_step_the_clock(
    m: Contents,
    c: CommandView,
    changes: Seq<OpView>,
    record: RecordView,
    origin: DeliveryOrigin,
)
    ensures
        ({
            let before = storage::apply_ops(m, changes);
            let after = storage::apply_ops(m, changes.push(apply::clock_change(c.issued_at)));
            &&& forall|reason: DeadLetterReasonView, description: Seq<char>|
                receiving::is_buried(before, c, record, record.envelope, reason, description)
                    ==> #[trigger] receiving::is_buried(
                    after,
                    c,
                    record,
                    record.envelope,
                    reason,
                    description,
                )
            &&& is_back(before, c, record, record.envelope, origin) ==> is_back(
                after,
                c,
                record,
                record.envelope,
                origin,
            )
            &&& forall|key: Seq<u8>|
                key.len() > 0 && key[0] == keys::TAG_LOCK ==> #[trigger] after.dom().contains(key)
                    == before.dom().contains(key)
        }),
{
    let before = storage::apply_ops(m, changes);
    let after = storage::apply_ops(m, changes.push(apply::clock_change(c.issued_at)));
    receiving::the_clock_leaves_the_rest_alone(m, changes, c, record.sequence);
    history::one_more_change(m, changes, apply::clock_change(c.issued_at));
    lifecycle::keys_begin_with_their_tags();
    assert forall|reason: DeadLetterReasonView, description: Seq<char>|
        receiving::is_buried(
            before,
            c,
            record,
            record.envelope,
            reason,
            description,
        ) implies #[trigger] receiving::is_buried(
        after,
        c,
        record,
        record.envelope,
        reason,
        description,
    ) by {
        receiving::the_buried_stay_buried(
            before,
            after,
            c,
            record,
            record.envelope,
            reason,
            description,
        );
    }
}

/// The holder of a lock sends a message to the dead-letter queue, for a reason of its
/// own.
pub proof fn holders_dead_letter(m: Contents, c: CommandView, n: SequenceNumber, token: LockToken)
    requires
        m.dom().finite(),
        numbering::sound(m),
        orderly::orderly_command(c),
        c.kind is DeadLetter,
        c.kind->DeadLetter_sequence == n,
        c.kind->DeadLetter_lock_token == token,
        machine::applied_time(m) matches Ok(time) && time.0 <= c.issued_at.0,
        sending::queue_named(m, c) is Some,
        machine::shadow_of(c.entity) is Ok,
        holds(m, c, n, token),
        replacement_fits(m, c),
    ensures
        apply::applied(m, c).0 == Ok::<OutcomeView, ErrorView>(OutcomeView::DeadLettered),
        receiving::is_buried(
            apply::applied(m, c).1,
            c,
            stored(m, c, n)->Some_0,
            envelope_after(c, stored(m, c, n)->Some_0),
            DeadLetterReasonView::Application(c.kind->DeadLetter_reason),
            c.kind->DeadLetter_description,
        ),
        !apply::applied(m, c).1.dom().contains(
            keys::lock_key(
                c.namespace,
                c.entity,
                stored(m, c, n)->Some_0.state->Locked_locked_until,
                n,
            ),
        ),
{
    let record = stored(m, c, n)->Some_0;
    let config = sending::queue_named(m, c)->Some_0;
    let reason = DeadLetterReasonView::Application(c.kind->DeadLetter_reason);
    let description = c.kind->DeadLetter_description;
    orderly::messages_stand_under_their_numbers(m, c.namespace, c.entity, n);
    replacements_are_put_in_place(m, c, config, record);
    let kept = RecordView { envelope: envelope_after(c, record), ..record };
    ends_are_buried(m, c, kept, reason, description);
    let changes = shared::dead_lettered(c, kept, reason, description, Seq::empty())->Ok_0;
    assert(apply::applied(m, c).1 == storage::apply_ops(
        m,
        changes.push(apply::clock_change(c.issued_at)),
    ));
    burials_are_told(m, c, changes, record, kept, reason, description);
}

proof fn burials_are_told(
    m: Contents,
    c: CommandView,
    changes: Seq<OpView>,
    record: RecordView,
    kept: RecordView,
    reason: DeadLetterReasonView,
    description: Seq<char>,
)
    requires
        receiving::is_buried(
            storage::apply_ops(m, changes),
            c,
            kept,
            kept.envelope,
            reason,
            description,
        ),
        kept == (RecordView { envelope: kept.envelope, ..record }),
    ensures
        ({
            let after = storage::apply_ops(m, changes.push(apply::clock_change(c.issued_at)));
            let lock = keys::lock_key(
                c.namespace,
                c.entity,
                record.state->Locked_locked_until,
                record.sequence,
            );
            &&& receiving::is_buried(after, c, record, kept.envelope, reason, description)
            &&& after.dom().contains(lock) == storage::apply_ops(m, changes).dom().contains(lock)
        }),
{
    settlements_step_the_clock(m, c, changes, kept, DeliveryOrigin::Ready);
    let after = storage::apply_ops(m, changes.push(apply::clock_change(c.issued_at)));
    lifecycle::keys_begin_with_their_tags();
    assert(receiving::is_buried(after, c, kept, kept.envelope, reason, description));
    let lock = keys::lock_key(
        c.namespace,
        c.entity,
        record.state->Locked_locked_until,
        record.sequence,
    );
    assert(lock[0] == keys::TAG_LOCK);
}

/// The holder of a lock makes it last longer: from now on for as long as was asked, or
/// else as the queue says. The token stays, and so does the message.
pub proof fn holders_renew(m: Contents, c: CommandView, n: SequenceNumber, token: LockToken)
    requires
        orderly::orderly(m),
        c.kind is RenewLock,
        c.kind->RenewLock_sequence == n,
        c.kind->RenewLock_lock_token == token,
        machine::applied_time(m) matches Ok(time) && time.0 <= c.issued_at.0,
        sending::queue_named(m, c) is Some,
        holds(m, c, n, token),
    ensures
        ({
            let after = apply::applied(m, c).1;
            let record = stored(m, c, n)->Some_0;
            let millis = receiving::lasts(
                sending::queue_named(m, c)->Some_0,
                c.kind->RenewLock_lock_duration_millis,
            );
            let until = sending::behind(c.issued_at, millis);
            &&& apply::applied(m, c).0 == Ok::<OutcomeView, ErrorView>(
                OutcomeView::LockRenewed { locked_until: until, lock_duration_millis: millis },
            )
            &&& machine::message_at(after, c.namespace, c.entity, n) matches Ok(Some(renewed))
            &&& receiving::same_message(renewed, record)
            &&& renewed.session_id == record.session_id
            &&& renewed.dead_letter == record.dead_letter
            &&& renewed.envelope == record.envelope
            &&& renewed.expires_at == record.expires_at
            &&& renewed.delivery_count == record.delivery_count
            &&& renewed.state == (MessageState::Locked {
                token,
                locked_until: until,
                origin: record.state->Locked_origin,
            })
            &&& after.dom().contains(keys::lock_key(c.namespace, c.entity, until, n))
        }),
{
    broadcast use history::one_more_change;

    lifecycle::keys_begin_with_their_tags();
    orderly::messages_stand_under_their_numbers(m, c.namespace, c.entity, n);
    let record = stored(m, c, n)->Some_0;
    let until = sending::behind(
        c.issued_at,
        receiving::lasts(
            sending::queue_named(m, c)->Some_0,
            c.kind->RenewLock_lock_duration_millis,
        ),
    );
    let state = MessageState::Locked {
        token,
        locked_until: until,
        origin: record.state->Locked_origin,
    };
    message::stored_messages_read_back(RecordView { state, ..record });
}

/// The holder of a lock puts a message aside: it stays as it is, out of the way of
/// receivers, until it is asked for by its number.
pub proof fn holders_defer(m: Contents, c: CommandView, n: SequenceNumber, token: LockToken)
    requires
        orderly::orderly(m),
        orderly::orderly_command(c),
        c.kind is Defer,
        c.kind->Defer_sequence == n,
        c.kind->Defer_lock_token == token,
        machine::applied_time(m) matches Ok(time) && time.0 <= c.issued_at.0,
        sending::queue_named(m, c) is Some,
        holds(m, c, n, token),
        replacement_fits(m, c),
    ensures
        ({
            let after = apply::applied(m, c).1;
            let record = stored(m, c, n)->Some_0;
            &&& apply::applied(m, c).0 == Ok::<OutcomeView, ErrorView>(OutcomeView::Deferred)
            &&& is_back(
                after,
                c,
                record,
                envelope_after(c, record),
                DeliveryOrigin::Deferred,
            )
            &&& !after.dom().contains(
                keys::lock_key(c.namespace, c.entity, record.state->Locked_locked_until, n),
            )
        }),
{
    let record = stored(m, c, n)->Some_0;
    let config = sending::queue_named(m, c)->Some_0;
    orderly::messages_stand_under_their_numbers(m, c.namespace, c.entity, n);
    replacements_are_put_in_place(m, c, config, record);
    let kept = RecordView { envelope: envelope_after(c, record), ..record };
    deferrals_take_their_step(m, c, config, record, kept);
    deferrals_are_told(m, c, record, kept);
}

/// What putting a message aside changes.
spec fn deferral_changes(c: CommandView, record: RecordView) -> Seq<OpView> {
    shared::without_expiry(
        c,
        record.expires_at,
        record.sequence,
        Seq::<OpView>::empty().push(
            shared::drop_key(
                keys::lock_key(
                    c.namespace,
                    c.entity,
                    record.state->Locked_locked_until,
                    record.sequence,
                ),
            ),
        ),
    ).push(
        shared::put(
            keys::message_key(c.namespace, c.entity, record.sequence),
            crate::domain::codec::encoded::<message::MessageRecord>(
                RecordView { state: MessageState::Deferred, ..record },
            ),
        ),
    ).push(shared::mark(keys::deferred_key(c.namespace, c.entity, record.sequence)))
}

proof fn deferrals_take_their_step(
    m: Contents,
    c: CommandView,
    config: QueueConfig,
    record: RecordView,
    kept: RecordView,
)
    requires
        c.kind is Defer,
        machine::applied_time(m) matches Ok(time) && time.0 <= c.issued_at.0,
        sending::queue_named(m, c) == Some(config),
        holds(m, c, c.kind->Defer_sequence, c.kind->Defer_lock_token),
        stored(m, c, c.kind->Defer_sequence) == Some(record),
        record.sequence == c.kind->Defer_sequence,
        kept.state == record.state,
        kept.sequence == record.sequence,
        shared::with_envelope(config, record, replacement(c)) == Ok::<RecordView, ErrorView>(kept),
    ensures
        apply::applied(m, c) == (
            Ok::<OutcomeView, ErrorView>(OutcomeView::Deferred),
            storage::apply_ops(
                m,
                deferral_changes(c, kept).push(apply::clock_change(c.issued_at)),
            ),
        ),
{
}

proof fn deferrals_are_told(m: Contents, c: CommandView, record: RecordView, kept: RecordView)
    requires
        orderly::orderly_record(kept),
        kept == (RecordView { envelope: kept.envelope, ..record }),
    ensures
        ({
            let after = storage::apply_ops(
                m,
                deferral_changes(c, kept).push(apply::clock_change(c.issued_at)),
            );
            &&& is_back(after, c, record, kept.envelope, DeliveryOrigin::Deferred)
            &&& !after.dom().contains(
                keys::lock_key(
                    c.namespace,
                    c.entity,
                    record.state->Locked_locked_until,
                    record.sequence,
                ),
            )
        }),
{
    broadcast use history::one_more_change;

    lifecycle::keys_begin_with_their_tags();
    message::stored_messages_read_back(RecordView { state: MessageState::Deferred, ..kept });
}

} // verus!
