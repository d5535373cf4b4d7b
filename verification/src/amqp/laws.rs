//! What holds of links, of the connections they stand on, and of how
//! connections begin.

use vstd::prelude::*;

use crate::amqp::engine;
use crate::amqp::engine::{CommandView, EngineView};
use crate::amqp::entries;
use crate::amqp::fault::CodecFault;
use crate::amqp::frame::FrameView;
use crate::amqp::handshake;
use crate::amqp::handshake::{EventView, GreetingView, Phase};
use crate::amqp::link;
use crate::amqp::link::{
    ActionView, DeliveryIdentity, DeliveryView, DrainRequest,
    EngineError, LinkView, QueuedView, ReceivingView, ReplyView, SendingView, StateFault,
};
use crate::amqp::message;
use crate::amqp::session;
use crate::amqp::types;
use crate::amqp::types::{
    DeliveryStateView, FlowView, MessageView, PerformativeView, ReceiverSettleMode, Role, SaslCode,
    SaslInitView, SaslView, SenderSettleMode, TransferView,
};

verus! {

// ---- credit ----------------------------------------------------------------

/// A reservation is given only for credit that nobody has reserved or used, and
/// under a number that no other reservation has.
pub proof fn reservations_are_backed_by_credit(
    sending: SendingView,
    channel: u16,
    handle: u32,
    ticket: u64,
    actions: Seq<ActionView>,
)
    requires
        sending.credit_reservations.len() <= usize::MAX,
    ensures
        ({
            let (after, told) = link::reserved(sending, channel, handle, ticket, actions);
            match told.last() {
                ActionView::Reply { ticket: answered, reply: ReplyView::Reserved(Some(identity)) } => {
                    &&& answered == ticket
                    &&& link::unreserved_credit(sending)
                    &&& identity.channel == channel
                    &&& identity.handle == handle
                    &&& identity.incarnation == sending.drain.incarnation
                    &&& !sending.credit_reservations.contains(identity.reservation_id)
                    &&& after.credit_reservations == sending.credit_reservations.push(
                        identity.reservation_id,
                    )
                    &&& engine::is_held(identity, channel, handle, after)
                    &&& after.delivery_count + after.credit_reservations.len()
                        <= after.credit_limit
                },
                ActionView::Reply { ticket: answered, reply: ReplyView::Reserved(None) } => {
                    &&& answered == ticket
                    &&& !link::unreserved_credit(sending)
                    &&& after.credit_reservations == sending.credit_reservations
                },
                _ => false,
            }
        }),
{
    link::a_number_is_free(
        sending.credit_reservations,
        sending.next_credit_reservation,
        sending.credit_reservations.len(),
    );
    let id = link::free_id(
        sending.credit_reservations,
        sending.next_credit_reservation,
        sending.credit_reservations.len(),
    );
    let longer = sending.credit_reservations.push(id);
    assert(longer[longer.len() - 1] == id);
    assert(longer.contains(id));
}

/// A flow changes how much may be sent, and takes no reservation and no queued
/// delivery away.
pub proof fn flows_keep_reservations(
    sending: SendingView,
    channel: u16,
    handle: u32,
    flow: FlowView,
    actions: Seq<ActionView>,
)
    ensures
        ({
            let (after, _) = link::flow_taken(sending, channel, handle, flow, actions);
            &&& after.credit_reservations == sending.credit_reservations
            &&& after.queued == sending.queued
            &&& after.unsettled == sending.unsettled
            &&& after.delivery_count == sending.delivery_count
        }),
{
}

/// A drain that was superseded, or belongs to an earlier link, changes nothing.
pub proof fn stale_drains_change_nothing(
    sending: SendingView,
    request: DrainRequest,
    next_id: u32,
    ticket: u64,
    actions: Seq<ActionView>,
)
    requires
        !(sending.drain.current matches Some(pending) && pending.request == request
            && request.incarnation == sending.drain.incarnation),
    ensures
        link::drain_acknowledged(sending, request, next_id, ticket, actions) == (
            sending,
            actions.push(
                link::replied(
                    ticket,
                    if request.incarnation == sending.drain.incarnation {
                        ReplyView::Done
                    } else {
                        ReplyView::Failed(EngineError::InvalidState(StateFault::ReplacedDrain))
                    },
                ),
            ),
        ),
{
}

/// Credit that is reserved is not returned: a drain waits for it.
pub proof fn reservations_hold_up_a_drain(
    sending: SendingView,
    request: DrainRequest,
    next_id: u32,
    ticket: u64,
    actions: Seq<ActionView>,
)
    requires
        sending.drain.current matches Some(pending) && pending.request == request
            && request.incarnation == sending.drain.incarnation,
        sending.credit_reservations.len() > 0,
    ensures
        link::drain_acknowledged(sending, request, next_id, ticket, actions) == (
            sending,
            actions.push(
                link::replied(
                    ticket,
                    ReplyView::Failed(EngineError::InvalidState(StateFault::LiveReservations)),
                ),
            ),
        ),
{
}

/// A drain that is acknowledged returns all credit: the peer is told that none
/// is left, and nothing more can be sent or reserved until it grants some.
pub proof fn acknowledged_drains_return_all_credit(
    sending: SendingView,
    request: DrainRequest,
    next_id: u32,
    ticket: u64,
    actions: Seq<ActionView>,
)
    requires
        sending.drain.current matches Some(pending) && pending.request == request
            && request.incarnation == sending.drain.incarnation,
        sending.credit_reservations.len() == 0,
        sending.queued.len() == 0,
    ensures
        ({
            let (after, told) = link::drain_acknowledged(
                sending,
                request,
                next_id,
                ticket,
                actions,
            );
            &&& !link::has_room(after)
            &&& after.drain.current is None
            &&& !after.credit_ready
            &&& told.last() == link::replied(ticket, ReplyView::Done)
            &&& told.contains(
                link::written(
                    request.channel,
                    PerformativeView::Flow(
                        link::drained_flow(request.handle, after.delivery_count, next_id),
                    ),
                ),
            )
        }),
{
    let (after, told) = link::drain_acknowledged(sending, request, next_id, ticket, actions);
    assert(told[actions.len() as int] == link::written(
        request.channel,
        PerformativeView::Flow(link::drained_flow(request.handle, after.delivery_count, next_id)),
    ));
}

// ---- sending ---------------------------------------------------------------

/// Whether no delivery without a reservation stands before one with one.
pub open spec fn reserved_first(queued: Seq<QueuedView>) -> bool {
    forall|i: int, j: int|
        #![trigger queued[i], queued[j]]
        0 <= i < j < queued.len() && queued[j].reservation is Some ==> queued[i].reservation is Some
}

proof fn the_first_unreserved_is_found(queued: Seq<QueuedView>, i: int)
    requires
        0 <= i <= queued.len(),
    ensures
        i <= engine::first_unreserved(queued, i) <= queued.len(),
        forall|j: int|
            i <= j < engine::first_unreserved(queued, i) ==> (#[trigger] queued[j]).reservation
                is Some,
        engine::first_unreserved(queued, i) < queued.len() ==> queued[engine::first_unreserved(
            queued,
            i,
        )].reservation is None,
    decreases queued.len() - i,
{
    if i < queued.len() && queued[i].reservation is Some {
        the_first_unreserved_is_found(queued, i + 1);
    }
}

/// Deliveries with a reservation go out before those without, whenever they were
/// handed in.
pub proof fn reserved_deliveries_go_first(queued: Seq<QueuedView>, send: QueuedView)
    requires
        reserved_first(queued),
    ensures
        reserved_first(engine::queued_with(queued, send)),
        engine::queued_with(queued, send).len() == queued.len() + 1,
{
    the_first_unreserved_is_found(queued, 0);
    let at = engine::first_unreserved(queued, 0);
    let after = engine::queued_with(queued, send);
    assert forall|i: int, j: int|
        #![trigger after[i], after[j]]
        0 <= i < j < after.len() && after[j].reservation is Some implies after[i].reservation
        is Some by {
        if send.reservation is Some {
            if i > at {
                assert(after[i] == queued[i - 1] && after[j] == queued[j - 1]);
                assert(queued[at].reservation is None);
                if at < j - 1 {
                    assert(queued[j - 1].reservation is None);
                }
            } else if i < at {
                assert(after[i] == queued[i]);
            }
        } else {
            assert(after[j] == queued[j] && after[i] == queued[i]);
        }
    }
}

/// What a flush leaves in the queue is the end of it, in its order, and every
/// reservation that is left was there before.
pub proof fn deliveries_go_out_in_order(
    channel: u16,
    handle: u32,
    max_frame_size: u32,
    next_id: u32,
    sending: SendingView,
    actions: Seq<ActionView>,
)
    ensures
        ({
            let after = link::flushed(
                channel,
                handle,
                max_frame_size,
                next_id,
                sending,
                actions,
            ).link;
            &&& after.queued.len() <= sending.queued.len()
            &&& after.queued == sending.queued.skip(sending.queued.len() - after.queued.len())
            &&& after.drain.incarnation == sending.drain.incarnation
        }),
    decreases sending.queued.len(),
{
    let whole = sending.queued;
    let reserved = whole.len() > 0 && whole[0].reservation is Some;
    if (reserved || link::has_room(sending)) && whole.len() > 0 {
        let first = whole[0];
        let after = link::taken_from(sending);
        assert(after.queued =~= whole.skip(1));
        if let Ok(payload) = message::message_octets(first.message) {
            let identity = DeliveryIdentity { channel, handle, delivery_id: next_id };
            let settled = sending.settle_mode == SenderSettleMode::Settled;
            let sent = link::transferred(
                identity,
                first.delivery_tag,
                first.message_format,
                settled,
                payload,
                link::chunk_size(max_frame_size),
                0,
                actions,
            ).push(link::replied(first.ticket, ReplyView::Started(identity)));
            if settled {
                deliveries_go_out_in_order(
                    channel,
                    handle,
                    max_frame_size,
                    next_id.wrapping_add(1),
                    after,
                    sent.push(
                        link::replied(
                            first.ticket,
                            ReplyView::Settled(DeliveryStateView::Accepted, None),
                        ),
                    ),
                );
            } else {
                deliveries_go_out_in_order(
                    channel,
                    handle,
                    max_frame_size,
                    next_id.wrapping_add(1),
                    SendingView {
                        unsettled: entries::inserted(after.unsettled, next_id, first.ticket),
                        ..after
                    },
                    sent,
                );
            }
        }
        let end = link::flushed(
            channel,
            handle,
            max_frame_size,
            next_id,
            sending,
            actions,
        ).link.queued;
        assert(whole.skip(1).skip(whole.len() - 1 - end.len()) =~= whole.skip(
            whole.len() - end.len(),
        ));
    } else {
        assert(whole.skip(0) =~= whole);
    }
}

/// A flush leaves nothing waiting that could be sent: what is left has no
/// reservation, and there is no credit for it. The sender knows whether there is
/// credit for more.
pub proof fn nothing_waits_while_there_is_credit(
    channel: u16,
    handle: u32,
    max_frame_size: u32,
    next_id: u32,
    sending: SendingView,
    actions: Seq<ActionView>,
)
    ensures
        ({
            let sent = link::flushed(channel, handle, max_frame_size, next_id, sending, actions);
            sent.error is None ==> {
                &&& sent.link.queued.len() == 0 || (sent.link.queued[0].reservation is None
                    && !link::has_room(sent.link))
                &&& sent.link.credit_ready == link::unreserved_credit(sent.link)
            }
        }),
    decreases sending.queued.len(),
{
    let reserved = sending.queued.len() > 0 && sending.queued[0].reservation is Some;
    if sending.queued.len() > 0 && (reserved || link::has_room(sending)) {
        let first = sending.queued[0];
        let identity = DeliveryIdentity { channel, handle, delivery_id: next_id };
        let after = link::taken_from(sending);
        if let Ok(payload) = message::message_octets(first.message) {
            let settled = sending.settle_mode == SenderSettleMode::Settled;
            let sent = link::transferred(
                identity,
                first.delivery_tag,
                first.message_format,
                settled,
                payload,
                link::chunk_size(max_frame_size),
                0,
                actions,
            ).push(link::replied(first.ticket, ReplyView::Started(identity)));
            nothing_waits_while_there_is_credit(
                channel,
                handle,
                max_frame_size,
                next_id.wrapping_add(1),
                after,
                sent.push(
                    link::replied(
                        first.ticket,
                        ReplyView::Settled(DeliveryStateView::Accepted, None),
                    ),
                ),
            );
            nothing_waits_while_there_is_credit(
                channel,
                handle,
                max_frame_size,
                next_id.wrapping_add(1),
                SendingView {
                    unsettled: entries::inserted(after.unsettled, next_id, first.ticket),
                    ..after
                },
                sent,
            );
        }
    }
}

proof fn flushes_only_add(
    channel: u16,
    handle: u32,
    max_frame_size: u32,
    next_id: u32,
    sending: SendingView,
    actions: Seq<ActionView>,
    action: ActionView,
)
    requires
        actions.contains(action),
    ensures
        link::flushed(channel, handle, max_frame_size, next_id, sending, actions).actions.contains(
            action,
        ),
    decreases sending.queued.len(),
{
    let at = choose|at: int| 0 <= at < actions.len() && actions[at] == action;
    let reserved = sending.queued.len() > 0 && sending.queued[0].reservation is Some;
    if sending.queued.len() > 0 && (reserved || link::has_room(sending)) {
        let first = sending.queued[0];
        let identity = DeliveryIdentity { channel, handle, delivery_id: next_id };
        let after = link::taken_from(sending);
        if let Ok(payload) = message::message_octets(first.message) {
            let settled = sending.settle_mode == SenderSettleMode::Settled;
            let size = link::chunk_size(max_frame_size);
            let tag = first.delivery_tag;
            let format = first.message_format;
            transfers_are_added(identity, tag, format, settled, payload, size, 0, actions);
            let written = link::transferred(
                identity,
                tag,
                format,
                settled,
                payload,
                size,
                0,
                actions,
            );
            assert(written[at] == action);
            let sent = written.push(link::replied(first.ticket, ReplyView::Started(identity)));
            assert(sent[at] == action);
            let told = sent.push(
                link::replied(
                    first.ticket,
                    ReplyView::Settled(DeliveryStateView::Accepted, None),
                ),
            );
            assert(told[at] == action);
            let next = next_id.wrapping_add(1);
            flushes_only_add(channel, handle, max_frame_size, next, after, told, action);
            flushes_only_add(
                channel,
                handle,
                max_frame_size,
                next,
                SendingView {
                    unsettled: entries::inserted(after.unsettled, next_id, first.ticket),
                    ..after
                },
                sent,
                action,
            );
        }
    } else {
        let (known, told) = link::published(sending, actions);
        assert(told[at] == action);
        let (_, drained) = link::zero_drained(channel, handle, next_id, known, told);
        assert(drained[at] == action);
    }
}

/// Every delivery that goes out starts under a delivery id of its own, and whoever
/// handed it in is told which: ids are given out in the order of the queue.
pub proof fn deliveries_start_under_their_own_ids(
    channel: u16,
    handle: u32,
    max_frame_size: u32,
    next_id: u32,
    sending: SendingView,
    actions: Seq<ActionView>,
    j: int,
)
    requires
        ({
            let sent = link::flushed(channel, handle, max_frame_size, next_id, sending, actions);
            sent.error is None && 0 <= j < sending.queued.len() - sent.link.queued.len()
        }),
    ensures
        link::flushed(channel, handle, max_frame_size, next_id, sending, actions).actions.contains(
            link::replied(
                sending.queued[j].ticket,
                ReplyView::Started(
                    DeliveryIdentity {
                        channel,
                        handle,
                        delivery_id: ((next_id + j) % 0x1_0000_0000) as u32,
                    },
                ),
            ),
        ),
    decreases sending.queued.len(),
{
    let first = sending.queued[0];
    let identity = DeliveryIdentity { channel, handle, delivery_id: next_id };
    let after = link::taken_from(sending);
    let payload = message::message_octets(first.message)->Ok_0;
    let settled = sending.settle_mode == SenderSettleMode::Settled;
    let sent = link::transferred(
        identity,
        first.delivery_tag,
        first.message_format,
        settled,
        payload,
        link::chunk_size(max_frame_size),
        0,
        actions,
    ).push(link::replied(first.ticket, ReplyView::Started(identity)));
    let told = sent.push(
        link::replied(first.ticket, ReplyView::Settled(DeliveryStateView::Accepted, None)),
    );
    let waiting = SendingView {
        unsettled: entries::inserted(after.unsettled, next_id, first.ticket),
        ..after
    };
    let next = next_id.wrapping_add(1);
    let started = link::replied(first.ticket, ReplyView::Started(identity));
    if j == 0 {
        assert(sent.last() == started && sent.contains(started));
        assert(told[sent.len() - 1] == started && told.contains(started));
        if settled {
            flushes_only_add(channel, handle, max_frame_size, next, after, told, started);
        } else {
            flushes_only_add(channel, handle, max_frame_size, next, waiting, sent, started);
        }
    } else {
        assert(after.queued[j - 1] == sending.queued[j]);
        assert((next + (j - 1)) % 0x1_0000_0000 == (next_id + j) % 0x1_0000_0000);
        if settled {
            deliveries_start_under_their_own_ids(
                channel,
                handle,
                max_frame_size,
                next,
                after,
                told,
                j - 1,
            );
        } else {
            deliveries_start_under_their_own_ids(
                channel,
                handle,
                max_frame_size,
                next,
                waiting,
                sent,
                j - 1,
            );
        }
    }
}

/// Deliveries without a reservation never exceed the credit that was granted,
/// nor use up credit that others have reserved.
pub proof fn unreserved_sends_stay_within_credit(
    channel: u16,
    handle: u32,
    max_frame_size: u32,
    next_id: u32,
    sending: SendingView,
    actions: Seq<ActionView>,
)
    requires
        forall|i: int|
            0 <= i < sending.queued.len() ==> (#[trigger] sending.queued[i]).reservation is None,
        sending.credit_limit <= u32::MAX,
        sending.delivery_count + sending.credit_reservations.len() <= sending.credit_limit,
    ensures
        ({
            let after = link::flushed(
                channel,
                handle,
                max_frame_size,
                next_id,
                sending,
                actions,
            ).link;
            &&& after.credit_reservations == sending.credit_reservations
            &&& after.delivery_count - sending.delivery_count == sending.queued.len()
                - after.queued.len()
            &&& after.delivery_count + after.credit_reservations.len() <= sending.credit_limit
        }),
    decreases sending.queued.len(),
{
    let whole = sending.queued;
    if link::has_room(sending) && whole.len() > 0 {
        let first = whole[0];
        let after = link::taken_from(sending);
        assert forall|i: int| 0 <= i < after.queued.len() implies (
        #[trigger] after.queued[i]).reservation is None by {
            assert(after.queued[i] == whole[i + 1]);
        }
        assert(after.delivery_count == sending.delivery_count + 1);
        if let Ok(payload) = message::message_octets(first.message) {
            let identity = DeliveryIdentity { channel, handle, delivery_id: next_id };
            let settled = sending.settle_mode == SenderSettleMode::Settled;
            let sent = link::transferred(
                identity,
                first.delivery_tag,
                first.message_format,
                settled,
                payload,
                link::chunk_size(max_frame_size),
                0,
                actions,
            ).push(link::replied(first.ticket, ReplyView::Started(identity)));
            if settled {
                unreserved_sends_stay_within_credit(
                    channel,
                    handle,
                    max_frame_size,
                    next_id.wrapping_add(1),
                    after,
                    sent.push(
                        link::replied(
                            first.ticket,
                            ReplyView::Settled(DeliveryStateView::Accepted, None),
                        ),
                    ),
                );
            } else {
                unreserved_sends_stay_within_credit(
                    channel,
                    handle,
                    max_frame_size,
                    next_id.wrapping_add(1),
                    SendingView {
                        unsettled: entries::inserted(after.unsettled, next_id, first.ticket),
                        ..after
                    },
                    sent,
                );
            }
        }
    }
}

// ---- receiving -------------------------------------------------------------

/// A receiving link that takes the transfers among `frames` from `i` on, and what
/// that leads to. The first fault ends it.
pub open spec fn taken_over(
    receiving: ReceivingView,
    frames: Seq<ActionView>,
    i: int,
    actions: Seq<ActionView>,
) -> (ReceivingView, Seq<ActionView>, Option<EngineError>)
    decreases frames.len() - i,
{
    if i < 0 || i >= frames.len() {
        (receiving, actions, None)
    } else {
        match frames[i] {
            ActionView::Write {
                performative: PerformativeView::Transfer(transfer),
                payload,
                ..
            } => {
                let taken = link::received(receiving, transfer, payload, actions);
                match taken.error {
                    Some(error) => (taken.link, taken.actions, Some(error)),
                    None => taken_over(taken.link, frames, i + 1, taken.actions),
                }
            },
            _ => taken_over(receiving, frames, i + 1, actions),
        }
    }
}

/// Transfers that are added behind others do not depend on them.
proof fn transfers_are_added(
    identity: DeliveryIdentity,
    tag: Seq<u8>,
    format: u32,
    settled: bool,
    payload: Seq<u8>,
    size: nat,
    at: int,
    actions: Seq<ActionView>,
)
    ensures
        link::transferred(identity, tag, format, settled, payload, size, at, actions) == actions
            + link::transferred(
            identity,
            tag,
            format,
            settled,
            payload,
            size,
            at,
            Seq::empty(),
        ),
    decreases payload.len() - at,
{
    let none: Seq<ActionView> = Seq::empty();
    if at < 0 || at > payload.len() || size == 0 {
        assert(actions + none =~= actions);
    } else {
        let end = if payload.len() - at < size {
            payload.len() as int
        } else {
            at + size
        };
        let more = end < payload.len();
        let part = ActionView::Write {
            channel: identity.channel,
            performative: PerformativeView::Transfer(
                link::transfer_part(identity, tag, format, settled, at == 0, more),
            ),
            payload: payload.subrange(at, end),
        };
        if more {
            transfers_are_added(
                identity,
                tag,
                format,
                settled,
                payload,
                size,
                end,
                actions.push(part),
            );
            transfers_are_added(
                identity,
                tag,
                format,
                settled,
                payload,
                size,
                end,
                none.push(part),
            );
            let rest = link::transferred(
                identity,
                tag,
                format,
                settled,
                payload,
                size,
                end,
                none,
            );
            assert(actions.push(part) + rest =~= actions + (none.push(part) + rest));
        } else {
            assert(actions.push(part) =~= actions + none.push(part));
        }
    }
}

proof fn the_rest_of_a_message_arrives(
    receiving: ReceivingView,
    identity: DeliveryIdentity,
    tag: Seq<u8>,
    format: u32,
    settled: bool,
    payload: Seq<u8>,
    size: nat,
    at: int,
    content: MessageView,
    before: Seq<ActionView>,
    actions: Seq<ActionView>,
)
    requires
        size > 0,
        0 <= at <= payload.len(),
        at == 0 || at < payload.len(),
        payload.len() <= receiving.max_message_size,
        message::message_of(payload) == Ok::<MessageView, CodecFault>(content),
        at == 0 ==> receiving.partial is None,
        at > 0 ==> receiving.partial == Some(
            link::PartialView {
                id: identity.delivery_id,
                settled,
                message_format: format,
                bytes: payload.subrange(0, at),
            },
        ),
    ensures
        taken_over(
            receiving,
            link::transferred(identity, tag, format, settled, payload, size, at, before),
            before.len() as int,
            actions,
        ) == (
            ReceivingView { partial: None, ..receiving },
            actions.push(
                ActionView::Deliver {
                    link: receiving.incarnation,
                    delivery: DeliveryView {
                        id: identity.delivery_id,
                        settled,
                        message_format: format,
                        message: content,
                        encoded_message: payload,
                    },
                },
            ),
            None::<EngineError>,
        ),
    decreases payload.len() - at,
{
    let end = if payload.len() - at < size {
        payload.len() as int
    } else {
        at + size
    };
    let more = end < payload.len();
    let transfer = link::transfer_part(identity, tag, format, settled, at == 0, more);
    let part = ActionView::Write {
        channel: identity.channel,
        performative: PerformativeView::Transfer(transfer),
        payload: payload.subrange(at, end),
    };
    let frames = link::transferred(identity, tag, format, settled, payload, size, at, before);
    let longer = before.push(part);
    if more {
        transfers_are_added(identity, tag, format, settled, payload, size, end, longer);
    }
    assert(frames.len() > before.len() && frames[before.len() as int] == part);
    let taken = link::received(receiving, transfer, payload.subrange(at, end), actions);
    assert(payload.subrange(0, at) + payload.subrange(at, end) =~= payload.subrange(0, end));
    assert(payload.subrange(0, payload.len() as int) =~= payload);
    if at == 0 {
        assert(payload.subrange(at, end) =~= payload.subrange(0, end));
    }
    assert(taken.error is None);
    if more {
        the_rest_of_a_message_arrives(
            taken.link,
            identity,
            tag,
            format,
            settled,
            payload,
            size,
            end,
            content,
            longer,
            taken.actions,
        );
    } else {
        assert(frames =~= longer);
        reveal_with_fuel(taken_over, 2);
    }
}

/// A message arrives as it was sent, however small the frames are that it is cut
/// into: one delivery, with the same octets, format and delivery id.
pub proof fn messages_arrive_as_they_were_sent(
    receiving: ReceivingView,
    identity: DeliveryIdentity,
    tag: Seq<u8>,
    format: u32,
    settled: bool,
    payload: Seq<u8>,
    max_frame_size: u32,
    content: MessageView,
)
    requires
        receiving.partial is None,
        payload.len() <= receiving.max_message_size,
        message::message_of(payload) == Ok::<MessageView, CodecFault>(content),
    ensures
        taken_over(
            receiving,
            link::transferred(
                identity,
                tag,
                format,
                settled,
                payload,
                link::chunk_size(max_frame_size),
                0,
                Seq::empty(),
            ),
            0,
            Seq::empty(),
        ) == (
            receiving,
            seq![
                ActionView::Deliver {
                    link: receiving.incarnation,
                    delivery: DeliveryView {
                        id: identity.delivery_id,
                        settled,
                        message_format: format,
                        message: content,
                        encoded_message: payload,
                    },
                },
            ],
            None::<EngineError>,
        ),
{
    let none: Seq<ActionView> = Seq::empty();
    the_rest_of_a_message_arrives(
        receiving,
        identity,
        tag,
        format,
        settled,
        payload,
        link::chunk_size(max_frame_size),
        0,
        content,
        none,
        none,
    );
}

/// A transfer of another format than the message began with is refused, and
/// leaves what has come of the message.
pub proof fn formats_do_not_change_midway(
    receiving: ReceivingView,
    transfer: TransferView,
    payload: Seq<u8>,
    actions: Seq<ActionView>,
)
    requires
        receiving.partial matches Some(partial) && transfer.message_format matches Some(format)
            && format != partial.message_format,
    ensures
        ({
            let taken = link::received(receiving, transfer, payload, actions);
            &&& taken.link == receiving
            &&& taken.actions == actions
            &&& taken.error == Some(EngineError::InvalidState(StateFault::FormatChanged))
        }),
{
}

// ---- settling --------------------------------------------------------------

proof fn the_least_lies_in_the_range(
    s: Seq<(u32, u64)>,
    first: u32,
    last: u32,
    i: int,
    best: Option<u32>,
)
    requires
        0 <= i <= s.len(),
        best is Some ==> first <= best->0 <= last,
    ensures
        match link::least_in(s, first, last, i, best) {
            Some(id) => first <= id <= last && (best == Some(id) || exists|k: int|
                i <= k < s.len() && (#[trigger] s[k]).0 == id),
            None => best is None && forall|k: int|
                i <= k < s.len() ==> !(first <= (#[trigger] s[k]).0 <= last),
        },
    decreases s.len() - i,
{
    if i < s.len() {
        let id = s[i].0;
        let better = first <= id <= last && (best is None || id < best->0);
        let next = if better {
            Some(id)
        } else {
            best
        };
        the_least_lies_in_the_range(s, first, last, i + 1, next);
    }
}

/// A range that the peer settles is settled whole: no delivery of it is left, and
/// every other one stays.
pub proof fn ranges_are_settled_whole(
    sending: SendingView,
    handle: u32,
    first: u32,
    last: u32,
    outcome: DeliveryStateView,
    settled: bool,
    batchable: bool,
    actions: Seq<ActionView>,
    id: u32,
)
    requires
        entries::distinct(sending.unsettled),
    ensures
        ({
            let (after, _) = link::settled_range(
                sending,
                handle,
                first,
                last,
                outcome,
                settled,
                batchable,
                actions,
            );
            &&& entries::distinct(after.unsettled)
            &&& entries::looked_up(after.unsettled, id) == if first <= id <= last {
                None
            } else {
                entries::looked_up(sending.unsettled, id)
            }
            &&& after.queued == sending.queued
            &&& after.credit_reservations == sending.credit_reservations
        }),
    decreases sending.unsettled.len(),
{
    the_least_lies_in_the_range(sending.unsettled, first, last, 0, None);
    entries::place_is_found(sending.unsettled, id, 0);
    if let Some(least) = link::least_in(sending.unsettled, first, last, 0, None) {
        entries::removal_is_looked_up(sending.unsettled, least, id);
        entries::place_is_found(sending.unsettled, least, 0);
        let rest = entries::removed(sending.unsettled, least);
        let confirmation = if sending.receiver_settle_mode
            == ReceiverSettleMode::Second && !settled {
            Some(
                link::PendingConfirmation {
                    handle,
                    incarnation: sending.drain.incarnation,
                    delivery_id: least,
                    batchable,
                },
            )
        } else {
            None
        };
        let ticket = entries::looked_up(sending.unsettled, least)->0;
        ranges_are_settled_whole(
            SendingView { unsettled: rest, ..sending },
            handle,
            first,
            last,
            outcome,
            settled,
            batchable,
            actions.push(link::replied(ticket, ReplyView::Settled(outcome, confirmation))),
            id,
        );
    }
}

/// Whether `longer` begins with `actions`.
pub open spec fn goes_on_from(longer: Seq<ActionView>, actions: Seq<ActionView>) -> bool {
    longer.len() >= actions.len() && longer.take(actions.len() as int) == actions
}

proof fn the_queue_is_refused(queued: Seq<QueuedView>, i: int, actions: Seq<ActionView>)
    requires
        0 <= i <= queued.len(),
    ensures
        goes_on_from(link::refused_queue(queued, i, actions), actions),
        forall|j: int|
            #![trigger queued[j]]
            i <= j < queued.len() ==> link::refused_queue(queued, i, actions).contains(
                link::replied(
                    queued[j].ticket,
                    ReplyView::NotStarted(EngineError::RemoteDetached),
                ),
            ) && link::refused_queue(queued, i, actions).contains(
                link::replied(queued[j].ticket, ReplyView::Failed(EngineError::RemoteDetached)),
            ),
    decreases queued.len() - i,
{
    let whole = link::refused_queue(queued, i, actions);
    if i < queued.len() {
        let one = link::replied(
            queued[i].ticket,
            ReplyView::NotStarted(EngineError::RemoteDetached),
        );
        let two = link::replied(queued[i].ticket, ReplyView::Failed(EngineError::RemoteDetached));
        let longer = actions.push(one).push(two);
        the_queue_is_refused(queued, i + 1, longer);
        let n = actions.len() as int;
        assert(whole.take(n + 2)[n] == one && whole.take(n + 2)[n + 1] == two);
        assert(whole[n] == one && whole[n + 1] == two);
        assert(whole.take(n) =~= actions) by {
            assert forall|k: int| 0 <= k < n implies whole.take(n)[k] == actions[k] by {
                assert(whole.take(n + 2)[k] == longer[k]);
            }
        }
    } else {
        assert(actions.take(actions.len() as int) =~= actions);
    }
}

proof fn the_unsettled_are_refused(unsettled: Seq<(u32, u64)>, i: int, actions: Seq<ActionView>)
    requires
        0 <= i <= unsettled.len(),
    ensures
        goes_on_from(link::refused_unsettled(unsettled, i, actions), actions),
        forall|j: int|
            #![trigger unsettled[j]]
            i <= j < unsettled.len() ==> link::refused_unsettled(unsettled, i, actions).contains(
                link::replied(unsettled[j].1, ReplyView::Failed(EngineError::RemoteDetached)),
            ),
    decreases unsettled.len() - i,
{
    let whole = link::refused_unsettled(unsettled, i, actions);
    if i < unsettled.len() {
        let one = link::replied(unsettled[i].1, ReplyView::Failed(EngineError::RemoteDetached));
        let longer = actions.push(one);
        the_unsettled_are_refused(unsettled, i + 1, longer);
        let n = actions.len() as int;
        assert(whole.take(n + 1)[n] == one);
        assert(whole[n] == one);
        assert(whole.take(n) =~= actions) by {
            assert forall|k: int| 0 <= k < n implies whole.take(n)[k] == actions[k] by {
                assert(whole.take(n + 1)[k] == longer[k]);
            }
        }
    } else {
        assert(actions.take(actions.len() as int) =~= actions);
    }
}

/// A link that goes leaves nobody waiting: every delivery that was queued is
/// told that it never started, and every one that was sent that it failed.
pub proof fn a_link_that_goes_answers_everyone(sending: SendingView, actions: Seq<ActionView>)
    ensures
        ({
            let told = link::stopped(LinkView::Sending(sending), actions);
            &&& goes_on_from(told, actions)
            &&& told.contains(ActionView::Detached { link: sending.drain.incarnation })
            &&& forall|j: int|
                #![trigger sending.queued[j]]
                0 <= j < sending.queued.len() ==> told.contains(
                    link::replied(
                        sending.queued[j].ticket,
                        ReplyView::NotStarted(EngineError::RemoteDetached),
                    ),
                )
            &&& forall|j: int|
                #![trigger sending.unsettled[j]]
                0 <= j < sending.unsettled.len() ==> told.contains(
                    link::replied(
                        sending.unsettled[j].1,
                        ReplyView::Failed(EngineError::RemoteDetached),
                    ),
                )
        }),
{
    let gone = ActionView::Detached { link: sending.drain.incarnation };
    let first = actions.push(gone);
    let second = link::refused_queue(sending.queued, 0, first);
    let told = link::refused_unsettled(sending.unsettled, 0, second);
    the_queue_is_refused(sending.queued, 0, first);
    the_unsettled_are_refused(sending.unsettled, 0, second);
    let n = actions.len() as int;
    let m = second.len() as int;
    assert forall|k: int| 0 <= k < m implies told[k] == second[k] by {
        assert(told.take(m)[k] == second[k]);
    }
    assert forall|k: int| 0 <= k < n + 1 implies second[k] == first[k] by {
        assert(second.take(n + 1)[k] == first[k]);
    }
    assert(told[n] == gone);
    assert(told.take(n) =~= actions);
    assert forall|j: int|
        #![trigger sending.queued[j]]
        0 <= j < sending.queued.len() implies told.contains(
        link::replied(
            sending.queued[j].ticket,
            ReplyView::NotStarted(EngineError::RemoteDetached),
        ),
    ) by {
        let reply = link::replied(
            sending.queued[j].ticket,
            ReplyView::NotStarted(EngineError::RemoteDetached),
        );
        assert(second.contains(reply));
        let k = choose|k: int| 0 <= k < second.len() && second[k] == reply;
        assert(told[k] == reply);
    }
}

// ---- requests --------------------------------------------------------------

/// The channel, the handle and the incarnation of the link that a request names.
pub open spec fn named_link(command: CommandView) -> Option<(u16, u32, u64)> {
    match command {
        CommandView::Send { channel, handle, incarnation, .. } => Some(
            (channel, handle, incarnation),
        ),
        CommandView::ReserveCredit { channel, handle, incarnation, .. } => Some(
            (channel, handle, incarnation),
        ),
        CommandView::ReleaseCredit { reservation, .. } => Some(
            (reservation.channel, reservation.handle, reservation.incarnation),
        ),
        CommandView::Confirm { channel, handle, incarnation, .. } => Some(
            (channel, handle, incarnation),
        ),
        CommandView::Drained { request, .. } => Some(
            (request.channel, request.handle, request.incarnation),
        ),
        CommandView::Settle { channel, handle, incarnation, .. } => Some(
            (channel, handle, incarnation),
        ),
        CommandView::Detach { channel, handle, incarnation, .. } => Some(
            (channel, handle, incarnation),
        ),
        _ => None,
    }
}

/// A request on a link that is gone, or that another has replaced under its
/// handle, changes nothing and writes nothing: it is answered, and that is all.
pub proof fn requests_do_not_outlive_their_link(
    e: EngineView,
    command: CommandView,
    actions: Seq<ActionView>,
)
    requires
        named_link(command) matches Some((channel, handle, incarnation)) && !(session::link_at(
            e.sessions,
            channel,
            handle,
        ) matches Some(found) && link::link_incarnation(found) == incarnation),
    ensures
        ({
            let step = engine::command_step(e, command, actions);
            &&& step.engine == e
            &&& step.verdict == engine::Verdict::Continue
            &&& goes_on_from(step.actions, actions)
            &&& forall|i: int|
                actions.len() <= i < step.actions.len() ==> (#[trigger] step.actions[i]) is Reply
        }),
{
    let step = engine::command_step(e, command, actions);
    if let CommandView::Drained { request, .. } = command {
        if let Some(found) = session::link_at(e.sessions, request.channel, request.handle) {
            session::same_link_changes_nothing(e.sessions, request.channel, request.handle);
        }
    }
    assert(step.actions.take(actions.len() as int) =~= actions);
}

// ---- channels and handles --------------------------------------------------

/// Whether no handle stands twice, nor both for a link and for one that nobody
/// has accepted.
pub open spec fn sound_session(s: session::SessionView) -> bool {
    &&& entries::distinct(s.links)
    &&& entries::distinct(s.pending_attaches)
    &&& entries::distinct(s.pending_flows)
    &&& forall|handle: u32|
        !(#[trigger] entries::looked_up(s.links, handle) is Some && entries::looked_up(
            s.pending_attaches,
            handle,
        ) is Some)
}

/// Whether no channel stands twice, nor both for a session and for one that
/// nobody has accepted, and every session is sound.
pub open spec fn sound(e: EngineView) -> bool {
    &&& entries::distinct(e.sessions)
    &&& entries::distinct(e.pending_sessions)
    &&& forall|channel: u16|
        !(#[trigger] entries::looked_up(e.sessions, channel) is Some && entries::looked_up(
            e.pending_sessions,
            channel,
        ) is Some)
    &&& forall|channel: u16|
        (#[trigger] entries::looked_up(e.sessions, channel)) matches Some(s) ==> sound_session(s)
}

proof fn a_changed_session_is_sound(e: EngineView, channel: u16, s: session::SessionView)
    requires
        sound(e),
        entries::looked_up(e.sessions, channel) is Some,
        sound_session(s),
    ensures
        sound(EngineView { sessions: entries::inserted(e.sessions, channel, s), ..e }),
{
    entries::insertion_keeps_keys_distinct(e.sessions, channel, s);
    let after = EngineView { sessions: entries::inserted(e.sessions, channel, s), ..e };
    assert forall|other: u16|
        !(#[trigger] entries::looked_up(after.sessions, other) is Some && entries::looked_up(
            after.pending_sessions,
            other,
        ) is Some) by {
        entries::insertion_is_looked_up(e.sessions, channel, s, other);
    }
    assert forall|other: u16|
        (#[trigger] entries::looked_up(after.sessions, other)) matches Some(found) implies
        sound_session(entries::looked_up(after.sessions, other)->0) by {
        entries::insertion_is_looked_up(e.sessions, channel, s, other);
    }
}

proof fn a_changed_link_is_sound(s: session::SessionView, handle: u32, changed: LinkView, id: u32)
    requires
        sound_session(s),
        entries::looked_up(s.links, handle) is Some,
    ensures
        sound_session(
            session::SessionView {
                links: entries::inserted(s.links, handle, changed),
                next_outgoing_id: id,
                ..s
            },
        ),
        sound_session(
            session::SessionView { links: entries::inserted(s.links, handle, changed), ..s },
        ),
{
    entries::insertion_keeps_keys_distinct(s.links, handle, changed);
    let links = entries::inserted(s.links, handle, changed);
    assert forall|other: u32|
        !(#[trigger] entries::looked_up(links, other) is Some && entries::looked_up(
            s.pending_attaches,
            other,
        ) is Some) by {
        entries::insertion_is_looked_up(s.links, handle, changed, other);
    }
}

proof fn flushing_is_sound(
    e: EngineView,
    max_frame_size: u32,
    channel: u16,
    handle: u32,
    actions: Seq<ActionView>,
)
    requires
        sound(e),
    ensures
        sound(
            EngineView {
                sessions: session::flush_step(
                    e.sessions,
                    max_frame_size,
                    channel,
                    handle,
                    actions,
                ).sessions,
                ..e
            },
        ),
{
    if let Some(LinkView::Sending(sending)) = session::link_at(e.sessions, channel, handle) {
        let s = entries::looked_up(e.sessions, channel)->0;
        let sent = link::flushed(
            channel,
            handle,
            max_frame_size,
            s.next_outgoing_id,
            sending,
            actions,
        );
        a_changed_link_is_sound(s, handle, LinkView::Sending(sent.link), sent.next_id);
        a_changed_session_is_sound(
            e,
            channel,
            session::SessionView {
                links: entries::inserted(s.links, handle, LinkView::Sending(sent.link)),
                next_outgoing_id: sent.next_id,
                ..s
            },
        );
    }
}

proof fn changing_a_link_is_sound(e: EngineView, channel: u16, handle: u32, changed: LinkView)
    requires
        sound(e),
        session::link_at(e.sessions, channel, handle) is Some,
    ensures
        sound(
            EngineView {
                sessions: session::with_link(e.sessions, channel, handle, changed),
                ..e
            },
        ),
{
    let s = entries::looked_up(e.sessions, channel)->0;
    a_changed_link_is_sound(s, handle, changed, 0);
    a_changed_session_is_sound(
        e,
        channel,
        session::SessionView { links: entries::inserted(s.links, handle, changed), ..s },
    );
}

proof fn flows_are_sound(
    e: EngineView,
    max_frame_size: u32,
    channel: u16,
    flow: FlowView,
    actions: Seq<ActionView>,
)
    requires
        sound(e),
    ensures
        sound(
            EngineView {
                sessions: session::flow_step(
                    e.sessions,
                    max_frame_size,
                    channel,
                    flow,
                    actions,
                ).sessions,
                ..e
            },
        ),
{
    if let (Some(handle), Some(s)) = (flow.handle, entries::looked_up(e.sessions, channel)) {
        match entries::looked_up(s.links, handle) {
            Some(LinkView::Sending(sending)) => {
                let (sending, told) = link::flow_taken(sending, channel, handle, flow, actions);
                changing_a_link_is_sound(e, channel, handle, LinkView::Sending(sending));
                flushing_is_sound(
                    EngineView {
                        sessions: session::with_link(
                            e.sessions,
                            channel,
                            handle,
                            LinkView::Sending(sending),
                        ),
                        ..e
                    },
                    max_frame_size,
                    channel,
                    handle,
                    told,
                );
            },
            Some(LinkView::Receiving(_)) => {},
            None => {
                entries::insertion_keeps_keys_distinct(s.pending_flows, handle, flow);
                let kept = session::SessionView {
                    pending_flows: entries::inserted(s.pending_flows, handle, flow),
                    ..s
                };
                assert(sound_session(kept));
                a_changed_session_is_sound(e, channel, kept);
            },
        }
    }
}

proof fn settling_keeps_handles(
    links: Seq<(u32, LinkView)>,
    i: int,
    first: u32,
    last: u32,
    outcome: DeliveryStateView,
    settled: bool,
    batchable: bool,
    actions: Seq<ActionView>,
)
    requires
        0 <= i,
    ensures
        ({
            let (after, _) = session::settled_links(
                links,
                i,
                first,
                last,
                outcome,
                settled,
                batchable,
                actions,
            );
            &&& after.len() == links.len()
            &&& forall|j: int| 0 <= j < links.len() ==> (#[trigger] after[j]).0 == links[j].0
        }),
    decreases links.len() - i,
{
    if i < links.len() {
        match links[i].1 {
            LinkView::Receiving(_) => {
                settling_keeps_handles(
                    links,
                    i + 1,
                    first,
                    last,
                    outcome,
                    settled,
                    batchable,
                    actions,
                );
            },
            LinkView::Sending(sending) => {
                let (sending, told) = link::settled_range(
                    sending,
                    links[i].0,
                    first,
                    last,
                    outcome,
                    settled,
                    batchable,
                    actions,
                );
                settling_keeps_handles(
                    links.update(i, (links[i].0, LinkView::Sending(sending))),
                    i + 1,
                    first,
                    last,
                    outcome,
                    settled,
                    batchable,
                    told,
                );
            },
        }
    }
}

proof fn same_handles_are_sound(s: session::SessionView, links: Seq<(u32, LinkView)>)
    requires
        sound_session(s),
        links.len() == s.links.len(),
        forall|j: int| 0 <= j < links.len() ==> (#[trigger] links[j]).0 == s.links[j].0,
    ensures
        sound_session(session::SessionView { links, ..s }),
{
    assert forall|i: int, j: int|
        #![trigger links[i], links[j]]
        0 <= i < j < links.len() implies links[i].0 != links[j].0 by {
        assert(s.links[i].0 != s.links[j].0);
    }
    assert forall|handle: u32|
        !(#[trigger] entries::looked_up(links, handle) is Some && entries::looked_up(
            s.pending_attaches,
            handle,
        ) is Some) by {
        entries::place_is_found(links, handle, 0);
        entries::place_is_found(s.links, handle, 0);
        if let Some(j) = entries::place(links, handle, 0) {
            assert(s.links[j].0 == handle);
            assert(entries::looked_up(s.links, handle) is Some);
        }
    }
}

/// Frames of the peer keep a connection sound, whatever they hold.
pub proof fn frames_keep_a_connection_sound(
    e: EngineView,
    frame: FrameView,
    fresh_session: u64,
    fresh_link: u64,
    actions: Seq<ActionView>,
)
    requires
        sound(e),
    ensures
        sound(engine::frame_step(e, frame, fresh_session, fresh_link, actions).engine),
{
    if let FrameView::Amqp { channel, performative: Some(performative), payload } = frame {
        match performative {
            PerformativeView::Begin(begin) => {
                entries::insertion_keeps_keys_distinct(e.pending_sessions, channel, fresh_session);
                let pending = entries::inserted(e.pending_sessions, channel, fresh_session);
                assert forall|other: u16|
                    !(#[trigger] entries::looked_up(e.sessions, other) is Some
                        && entries::looked_up(e.pending_sessions, other) is Some)
                        && entries::looked_up(e.sessions, channel) is None implies !(
                entries::looked_up(e.sessions, other) is Some && entries::looked_up(
                    pending,
                    other,
                ) is Some) by {
                    entries::insertion_is_looked_up(
                        e.pending_sessions,
                        channel,
                        fresh_session,
                        other,
                    );
                }
            },
            PerformativeView::Attach(attach) => {
                if let Some(s) = entries::looked_up(e.sessions, channel) {
                    let pending = entries::inserted(
                        s.pending_attaches,
                        attach.handle,
                        fresh_link,
                    );
                    entries::insertion_keeps_keys_distinct(
                        s.pending_attaches,
                        attach.handle,
                        fresh_link,
                    );
                    let kept = session::SessionView { pending_attaches: pending, ..s };
                    if entries::looked_up(s.links, attach.handle) is None {
                        assert forall|other: u32|
                            !(#[trigger] entries::looked_up(kept.links, other) is Some
                                && entries::looked_up(kept.pending_attaches, other) is Some) by {
                            entries::insertion_is_looked_up(
                                s.pending_attaches,
                                attach.handle,
                                fresh_link,
                                other,
                            );
                        }
                        a_changed_session_is_sound(e, channel, kept);
                    }
                }
            },
            PerformativeView::Flow(flow) => {
                flows_are_sound(e, e.remote_max_frame_size, channel, flow, actions);
            },
            PerformativeView::Transfer(transfer) => {
                if let Some(LinkView::Receiving(receiving)) = session::link_at(
                    e.sessions,
                    channel,
                    transfer.handle,
                ) {
                    let taken = link::received(receiving, transfer, payload, actions);
                    changing_a_link_is_sound(
                        e,
                        channel,
                        transfer.handle,
                        LinkView::Receiving(taken.link),
                    );
                }
            },
            PerformativeView::Disposition(disposition) => {
                if let Some(s) = entries::looked_up(e.sessions, channel) {
                    let last = match disposition.last {
                        Some(last) => last,
                        None => disposition.first,
                    };
                    if disposition.state is Some {
                        settling_keeps_handles(
                            s.links,
                            0,
                            disposition.first,
                            last,
                            disposition.state->0,
                            disposition.settled,
                            disposition.batchable,
                            actions,
                        );
                        let (links, _) = session::settled_links(
                            s.links,
                            0,
                            disposition.first,
                            last,
                            disposition.state->0,
                            disposition.settled,
                            disposition.batchable,
                            actions,
                        );
                        same_handles_are_sound(s, links);
                        a_changed_session_is_sound(
                            e,
                            channel,
                            session::SessionView { links, ..s },
                        );
                    }
                }
            },
            PerformativeView::Detach(detach) => {
                detaching_is_sound(e, channel, detach.handle);
            },
            PerformativeView::End(_) => {
                assert forall|other: u16|
                    (#[trigger] entries::looked_up(
                        entries::removed(e.sessions, channel),
                        other,
                    )) == (if other == channel {
                        None
                    } else {
                        entries::looked_up(e.sessions, other)
                    }) && entries::looked_up(
                        entries::removed(e.pending_sessions, channel),
                        other,
                    ) == (if other == channel {
                        None
                    } else {
                        entries::looked_up(e.pending_sessions, other)
                    }) by {
                    entries::removal_is_looked_up(e.sessions, channel, other);
                    entries::removal_is_looked_up(e.pending_sessions, channel, other);
                }
                entries::removal_is_looked_up(e.sessions, channel, channel);
                entries::removal_is_looked_up(e.pending_sessions, channel, channel);
            },
            _ => {},
        }
    }
}

proof fn detaching_is_sound(e: EngineView, channel: u16, handle: u32)
    requires
        sound(e),
    ensures
        entries::looked_up(e.sessions, channel) matches Some(s) ==> sound(
            EngineView {
                sessions: entries::inserted(
                    e.sessions,
                    channel,
                    session::SessionView { links: entries::removed(s.links, handle), ..s },
                ),
                ..e
            },
        ) && sound(
            EngineView {
                sessions: entries::inserted(
                    e.sessions,
                    channel,
                    session::SessionView {
                        pending_attaches: entries::removed(s.pending_attaches, handle),
                        pending_flows: entries::removed(s.pending_flows, handle),
                        ..s
                    },
                ),
                ..e
            },
        ),
{
    if let Some(s) = entries::looked_up(e.sessions, channel) {
        let one = session::SessionView { links: entries::removed(s.links, handle), ..s };
        let other = session::SessionView {
            pending_attaches: entries::removed(s.pending_attaches, handle),
            pending_flows: entries::removed(s.pending_flows, handle),
            ..s
        };
        entries::removal_is_looked_up(s.links, handle, handle);
        entries::removal_is_looked_up(s.pending_attaches, handle, handle);
        entries::removal_is_looked_up(s.pending_flows, handle, handle);
        assert forall|h: u32|
            !(#[trigger] entries::looked_up(one.links, h) is Some && entries::looked_up(
                one.pending_attaches,
                h,
            ) is Some) by {
            entries::removal_is_looked_up(s.links, handle, h);
        }
        assert forall|h: u32|
            !(#[trigger] entries::looked_up(other.links, h) is Some && entries::looked_up(
                other.pending_attaches,
                h,
            ) is Some) by {
            entries::removal_is_looked_up(s.pending_attaches, handle, h);
        }
        a_changed_session_is_sound(e, channel, one);
        a_changed_session_is_sound(e, channel, other);
    }
}

proof fn accepting_a_link_is_sound(
    e: EngineView,
    channel: u16,
    handle: u32,
    accepted: LinkView,
)
    requires
        sound(e),
        entries::looked_up(e.sessions, channel) is Some,
    ensures
        ({
            let s = entries::looked_up(e.sessions, channel)->0;
            let attached = session::SessionView {
                pending_attaches: entries::removed(s.pending_attaches, handle),
                links: entries::inserted(s.links, handle, accepted),
                pending_flows: entries::removed(s.pending_flows, handle),
                ..s
            };
            sound(EngineView { sessions: entries::inserted(e.sessions, channel, attached), ..e })
        }),
{
    let s = entries::looked_up(e.sessions, channel)->0;
    let attached = session::SessionView {
        pending_attaches: entries::removed(s.pending_attaches, handle),
        links: entries::inserted(s.links, handle, accepted),
        pending_flows: entries::removed(s.pending_flows, handle),
        ..s
    };
    entries::insertion_keeps_keys_distinct(s.links, handle, accepted);
    entries::removal_is_looked_up(s.pending_attaches, handle, handle);
    entries::removal_is_looked_up(s.pending_flows, handle, handle);
    assert forall|h: u32|
        !(#[trigger] entries::looked_up(attached.links, h) is Some && entries::looked_up(
            attached.pending_attaches,
            h,
        ) is Some) by {
        entries::removal_is_looked_up(s.pending_attaches, handle, h);
        entries::insertion_is_looked_up(s.links, handle, accepted, h);
    }
    a_changed_session_is_sound(e, channel, attached);
}

/// Requests of this end keep a connection sound.
pub proof fn requests_keep_a_connection_sound(
    e: EngineView,
    command: CommandView,
    actions: Seq<ActionView>,
)
    requires
        sound(e),
    ensures
        sound(engine::command_step(e, command, actions).engine),
{
    match command {
        CommandView::AcceptSession { channel, incarnation, ticket } => {
            let fresh = session::new_session(incarnation);
            let after = EngineView {
                sessions: entries::inserted(e.sessions, channel, fresh),
                pending_sessions: entries::removed(e.pending_sessions, channel),
                ..e
            };
            entries::insertion_keeps_keys_distinct(e.sessions, channel, fresh);
            entries::removal_is_looked_up(e.pending_sessions, channel, channel);
            assert forall|other: u16|
                !(#[trigger] entries::looked_up(after.sessions, other) is Some
                    && entries::looked_up(after.pending_sessions, other) is Some) by {
                entries::removal_is_looked_up(e.pending_sessions, channel, other);
                entries::insertion_is_looked_up(e.sessions, channel, fresh, other);
            }
            assert(sound_session(fresh)) by {
                assert forall|h: u32|
                    (#[trigger] entries::looked_up(fresh.links, h)) is None by {
                    entries::place_is_found(fresh.links, h, 0);
                }
            }
            assert forall|other: u16|
                (#[trigger] entries::looked_up(after.sessions, other)) is Some implies sound_session(
                entries::looked_up(after.sessions, other)->0,
            ) by {
                entries::insertion_is_looked_up(e.sessions, channel, fresh, other);
            }
        },
        CommandView::AcceptLink { channel, incarnation, attach, max_message_size, properties, .. }
        => {
            if let Some(s) = entries::looked_up(e.sessions, channel) {
                let handle = attach.handle;
                let accepted = engine::local_link(attach, incarnation, max_message_size);
                accepting_a_link_is_sound(e, channel, handle, accepted);
                let attached = entries::inserted(
                    e.sessions,
                    channel,
                    session::SessionView {
                        pending_attaches: entries::removed(s.pending_attaches, handle),
                        links: entries::inserted(s.links, handle, accepted),
                        pending_flows: entries::removed(s.pending_flows, handle),
                        ..s
                    },
                );
                let answered = actions.push(
                    link::written(
                        channel,
                        PerformativeView::Attach(
                            engine::attach_answer(attach, max_message_size, properties),
                        ),
                    ),
                );
                let granted = if attach.role == Role::Sender {
                    answered.push(
                        link::written(
                            channel,
                            PerformativeView::Flow(engine::granting(handle, s.next_outgoing_id)),
                        ),
                    )
                } else {
                    answered
                };
                if let Some(flow) = entries::looked_up(s.pending_flows, handle) {
                    flows_are_sound(
                        EngineView { sessions: attached, ..e },
                        e.remote_max_frame_size,
                        channel,
                        flow,
                        granted,
                    );
                }
            }
        },
        CommandView::Send {
            channel,
            handle,
            message,
            message_format,
            delivery_tag,
            reservation,
            ticket,
            ..
        } => {
            if let Some(LinkView::Sending(sending)) = session::link_at(
                e.sessions,
                channel,
                handle,
            ) {
                let send = QueuedView {
                    message,
                    message_format,
                    delivery_tag,
                    reservation,
                    ticket,
                };
                let queued = LinkView::Sending(
                    SendingView { queued: engine::queued_with(sending.queued, send), ..sending },
                );
                changing_a_link_is_sound(e, channel, handle, queued);
                flushing_is_sound(
                    EngineView {
                        sessions: session::with_link(e.sessions, channel, handle, queued),
                        ..e
                    },
                    e.remote_max_frame_size,
                    channel,
                    handle,
                    actions,
                );
            }
        },
        CommandView::ReserveCredit { channel, handle, ticket, .. } => {
            if let Some(LinkView::Sending(sending)) = session::link_at(
                e.sessions,
                channel,
                handle,
            ) {
                let (after, _) = link::reserved(sending, channel, handle, ticket, actions);
                changing_a_link_is_sound(e, channel, handle, LinkView::Sending(after));
            }
        },
        CommandView::ReleaseCredit { reservation, .. } => {
            if let Some(LinkView::Sending(sending)) = session::link_at(
                e.sessions,
                reservation.channel,
                reservation.handle,
            ) {
                let s = entries::looked_up(e.sessions, reservation.channel)->0;
                let (freed, told) = link::published(
                    SendingView {
                        credit_reservations: link::without(
                            sending.credit_reservations,
                            reservation.reservation_id,
                        ),
                        ..sending
                    },
                    actions,
                );
                let (after, _) = link::zero_drained(
                    reservation.channel,
                    reservation.handle,
                    s.next_outgoing_id,
                    freed,
                    told,
                );
                changing_a_link_is_sound(
                    e,
                    reservation.channel,
                    reservation.handle,
                    LinkView::Sending(after),
                );
            }
        },
        CommandView::Drained { request, ticket } => {
            if let Some(LinkView::Sending(sending)) = session::link_at(
                e.sessions,
                request.channel,
                request.handle,
            ) {
                let s = entries::looked_up(e.sessions, request.channel)->0;
                let (after, _) = link::drain_acknowledged(
                    sending,
                    request,
                    s.next_outgoing_id,
                    ticket,
                    actions,
                );
                changing_a_link_is_sound(
                    e,
                    request.channel,
                    request.handle,
                    LinkView::Sending(after),
                );
            }
        },
        CommandView::Detach { channel, handle, .. } => {
            detaching_is_sound(e, channel, handle);
        },
        _ => {},
    }
}

/// A link that waits to be accepted can be: on a sound connection no other stands
/// under its handle.
pub proof fn a_waiting_link_can_be_accepted(
    e: EngineView,
    command: CommandView,
    actions: Seq<ActionView>,
)
    requires
        sound(e),
        command is AcceptLink,
        entries::looked_up(e.sessions, command->AcceptLink_channel) matches Some(s)
            && s.incarnation == command->AcceptLink_session_incarnation && entries::looked_up(
            s.pending_attaches,
            command->AcceptLink_attach.handle,
        ) == Some(command->AcceptLink_incarnation) && entries::looked_up(
            s.pending_flows,
            command->AcceptLink_attach.handle,
        ) is None,
    ensures
        ({
            let step = engine::command_step(e, command, actions);
            &&& step.verdict == engine::Verdict::Continue
            &&& step.actions.last() == link::replied(
                command->AcceptLink_ticket,
                ReplyView::Attached(command->AcceptLink_incarnation),
            )
            &&& session::link_at(
                step.engine.sessions,
                command->AcceptLink_channel,
                command->AcceptLink_attach.handle,
            ) == Some(
                engine::local_link(
                    command->AcceptLink_attach,
                    command->AcceptLink_incarnation,
                    command->AcceptLink_max_message_size,
                ),
            )
        }),
{
    let channel = command->AcceptLink_channel;
    let handle = command->AcceptLink_attach.handle;
    let s = entries::looked_up(e.sessions, channel)->0;
    assert(entries::looked_up(s.links, handle) is None);
    let accepted = engine::local_link(
        command->AcceptLink_attach,
        command->AcceptLink_incarnation,
        command->AcceptLink_max_message_size,
    );
    entries::insertion_is_looked_up(s.links, handle, accepted, handle);
    let attached = session::SessionView {
        pending_attaches: entries::removed(s.pending_attaches, handle),
        links: entries::inserted(s.links, handle, accepted),
        pending_flows: entries::removed(s.pending_flows, handle),
        ..s
    };
    entries::insertion_is_looked_up(e.sessions, channel, attached, channel);
}

// ---- how connections begin -------------------------------------------------

/// What one end hears of what the other says.
pub open spec fn heard(greeting: GreetingView) -> EventView {
    match greeting {
        GreetingView::Header(header) => EventView::Header(header),
        GreetingView::Frame(frame) => EventView::Frame(frame),
        GreetingView::Authenticate(init) => EventView::Frame(FrameView::Sasl(SaslView::Init(init))),
    }
}

/// Two ends that share a mechanism, of which the serving one accepts the
/// credentials, open the connection: each hears what the other says in turn, and
/// both end with the frame size of the other.
pub proof fn handshakes_complete(
    serving: Seq<char>,
    requesting: Seq<char>,
    mechanisms: Seq<Seq<char>>,
    init: SaslInitView,
)
    requires
        mechanisms.contains(init.mechanism),
    ensures
        ({
            let none: Seq<GreetingView> = Seq::empty();
            let who = Some(init);
            let hello = handshake::first_greeting(true);
            let s1 = handshake::accept_step(
                Phase::SaslHeader,
                serving,
                mechanisms,
                heard(hello),
                none,
            );
            let c1 = handshake::open_step(
                Phase::SaslHeader,
                requesting,
                who,
                heard(s1.greetings[0]),
                none,
            );
            let c2 = handshake::open_step(
                c1.phase,
                requesting,
                who,
                heard(s1.greetings[1]),
                c1.greetings,
            );
            let s2 = handshake::accept_step(
                s1.phase,
                serving,
                mechanisms,
                heard(c2.greetings[0]),
                none,
            );
            let s3 = handshake::accept_step(
                s2.phase,
                serving,
                mechanisms,
                EventView::Code(SaslCode::Success),
                none,
            );
            let c3 = handshake::open_step(
                c2.phase,
                requesting,
                who,
                heard(s3.greetings[0]),
                none,
            );
            let s4 = handshake::accept_step(
                s3.phase,
                serving,
                mechanisms,
                heard(c3.greetings[0]),
                none,
            );
            let c4 = handshake::open_step(
                c3.phase,
                requesting,
                who,
                heard(s4.greetings[0]),
                none,
            );
            let s5 = handshake::accept_step(
                s4.phase,
                serving,
                mechanisms,
                heard(c4.greetings[0]),
                none,
            );
            let c5 = handshake::open_step(
                c4.phase,
                requesting,
                who,
                heard(s5.greetings[0]),
                none,
            );
            let size = types::opening(requesting).max_frame_size;
            &&& s2.greetings == seq![GreetingView::Authenticate(init)]
            &&& s5.phase == Phase::Opened(size)
            &&& c5.phase == Phase::Opened(size)
            &&& s5.error is None
            &&& c5.error is None
        }),
{
    let none: Seq<GreetingView> = Seq::empty();
    let hello = handshake::first_greeting(true);
    let s1 = handshake::accept_step(Phase::SaslHeader, serving, mechanisms, heard(hello), none);
    assert(s1.greetings.len() == 2);
    assert(none.push(GreetingView::Authenticate(init)) =~= seq![GreetingView::Authenticate(init)]);
}

/// No end is served before its credentials were accepted: the serving end takes
/// the header of a connection only after the code that says so.
pub proof fn credentials_come_first(
    phase: Phase,
    serving: Seq<char>,
    mechanisms: Seq<Seq<char>>,
    event: EventView,
    greetings: Seq<GreetingView>,
)
    ensures
        ({
            let step = handshake::accept_step(phase, serving, mechanisms, event, greetings);
            &&& step.phase == Phase::AmqpHeader ==> phase == Phase::SaslCode && event
                == EventView::Code(SaslCode::Success)
            &&& step.phase == Phase::Open ==> phase == Phase::AmqpHeader
            &&& step.phase is Opened ==> phase == Phase::Open
        }),
{
}

/// Credentials that are refused end the handshake at both ends, and the
/// requesting one learns why.
pub proof fn refused_credentials_end_the_handshake(
    serving: Seq<char>,
    requesting: Seq<char>,
    mechanisms: Seq<Seq<char>>,
    init: Option<SaslInitView>,
    code: SaslCode,
)
    requires
        code != SaslCode::Success,
    ensures
        ({
            let none: Seq<GreetingView> = Seq::empty();
            let told = handshake::accept_step(
                Phase::SaslCode,
                serving,
                mechanisms,
                EventView::Code(code),
                none,
            );
            let learned = handshake::open_step(
                Phase::SaslOutcome,
                requesting,
                init,
                heard(told.greetings[0]),
                none,
            );
            &&& told.phase == Phase::Failed
            &&& told.error == Some(EngineError::PermissionDenied)
            &&& learned.phase == Phase::Failed
            &&& learned.error == Some(EngineError::SaslAuthentication(code))
        }),
{
}

} // verus!
