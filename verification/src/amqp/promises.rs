//! What the serving end of a connection answers, request by request and frame by frame.

use vstd::prelude::*;

use crate::amqp::connect;
use crate::amqp::engine;
use crate::amqp::engine::{CommandView, EngineStep, EngineView, Verdict};
use crate::amqp::entries;
use crate::amqp::frame::FrameView;
use crate::amqp::link;
use crate::amqp::laws;
use crate::amqp::link::{
    ActionView, EngineError, LinkView, PartialView, PendingConfirmation, ReceivingView, ReplyView,
    SendingView, StateFault,
};
use crate::amqp::message;
use crate::amqp::session;
use crate::amqp::session::SessionView;
use crate::amqp::types::{
    AttachView, BeginView, DeliveryStateView, DetachView, DispositionView, EndView, ErrorView,
    FieldsView, FlowView, PerformativeView, Role, TransferView,
};
use crate::uri::UriView;

verus! {

// ---- what it is told in ----------------------------------------------------

/// A frame on a channel that carries nothing behind it.
pub open spec fn frame_on(channel: u16, performative: PerformativeView) -> FrameView {
    FrameView::Amqp { channel, performative: Some(performative), payload: Seq::empty() }
}

/// Whether a step only adds one action and goes on as before.
pub open spec fn only_adds(
    step: EngineStep,
    e: EngineView,
    actions: Seq<ActionView>,
    one: ActionView,
) -> bool {
    &&& step.engine == e
    &&& step.actions == actions.push(one)
    &&& step.verdict is Continue
}

/// Whether a step ends the connection for a fault and does nothing else.
pub open spec fn only_fails(
    step: EngineStep,
    actions: Seq<ActionView>,
    fault: StateFault,
) -> bool {
    &&& step.actions == actions
    &&& step.verdict == Verdict::Failed(EngineError::InvalidState(fault))
}

/// A write of a performative alone.
pub open spec fn wrote(channel: u16, performative: PerformativeView) -> ActionView {
    ActionView::Write { channel, performative, payload: Seq::empty() }
}

/// The answer to a request.
pub open spec fn answered(ticket: u64, reply: ReplyView) -> ActionView {
    ActionView::Reply { ticket, reply }
}

/// The session on a channel.
pub open spec fn session_on(e: EngineView, channel: u16) -> Option<SessionView> {
    entries::looked_up(e.sessions, channel)
}

/// The link under a handle.
pub open spec fn link_under(e: EngineView, channel: u16, handle: u32) -> Option<LinkView> {
    if session_on(e, channel) is Some {
        entries::looked_up(session_on(e, channel)->Some_0.links, handle)
    } else {
        None
    }
}

// ---- sessions --------------------------------------------------------------

/// A session that the peer begins on a free channel waits to be accepted, and is told of.
/// On a channel that is taken it ends the connection.
pub proof fn begun_sessions_wait(
    e: EngineView,
    channel: u16,
    begin: BeginView,
    fresh: u64,
    other: u64,
    actions: Seq<ActionView>,
)
    ensures
        ({
            let frame = frame_on(channel, PerformativeView::Begin(begin));
            let step = engine::frame_step(e, frame, fresh, other, actions);
            let taken = session_on(e, channel) is Some || entries::looked_up(
                e.pending_sessions,
                channel,
            ) is Some;
            &&& taken ==> only_fails(step, actions, StateFault::DuplicateChannel) && step.engine
                == e
            &&& !taken ==> {
                &&& step.verdict is Continue
                &&& step.actions == actions.push(
                    ActionView::Begun { channel, incarnation: fresh, begin },
                )
                &&& entries::looked_up(step.engine.pending_sessions, channel) == Some(fresh)
                &&& step.engine.sessions == e.sessions
            }
        }),
{
    entries::insertion_is_looked_up(e.pending_sessions, channel, fresh, channel);
}

/// A session that waits is accepted: the peer is told its channel and the windows, and
/// the session is there, without links. One that waits no more is refused.
pub proof fn waiting_sessions_are_accepted(
    e: EngineView,
    channel: u16,
    incarnation: u64,
    ticket: u64,
    actions: Seq<ActionView>,
)
    requires
        entries::distinct(e.pending_sessions),
    ensures
        ({
            let request = CommandView::AcceptSession { channel, incarnation, ticket };
            let step = engine::command_step(e, request, actions);
            let waits = entries::looked_up(e.pending_sessions, channel) == Some(incarnation);
            &&& !waits ==> only_adds(
                step,
                e,
                actions,
                answered(ticket, ReplyView::Failed(EngineError::RemoteDetached)),
            )
            &&& waits ==> {
                &&& step.verdict is Continue
                &&& step.actions.len() == actions.len() + 2
                &&& step.actions.take(actions.len() as int) == actions
                &&& step.actions.last() == answered(ticket, ReplyView::Done)
                &&& step.actions[actions.len() as int] matches ActionView::Write {
                    channel: on,
                    performative: PerformativeView::Begin(begin),
                    payload,
                }
                &&& on == channel
                &&& payload.len() == 0
                &&& begin.remote_channel == Some(channel)
                &&& begin.next_outgoing_id == 0
                &&& begin.incoming_window == 2_048
                &&& begin.outgoing_window == 2_048
                &&& begin.handle_max == 0xffff_ffff
                &&& begin.properties is None
                &&& session_on(step.engine, channel) matches Some(s)
                &&& s.incarnation == incarnation
                &&& s.accepts_links
                &&& s.links.len() == 0
                &&& s.pending_attaches.len() == 0
                &&& s.pending_flows.len() == 0
                &&& s.next_outgoing_id == 0
                &&& entries::looked_up(step.engine.pending_sessions, channel) is None
            }
        }),
{
    let request = CommandView::AcceptSession { channel, incarnation, ticket };
    let step = engine::command_step(e, request, actions);
    entries::insertion_is_looked_up(
        e.sessions,
        channel,
        session::new_session(incarnation),
        channel,
    );
    entries::removal_is_looked_up(e.pending_sessions, channel, channel);
    if entries::looked_up(e.pending_sessions, channel) == Some(incarnation) {
        assert(step.actions.take(actions.len() as int) =~= actions);
    }
}

/// A session that the peer ends is gone, and its end is answered last.
pub proof fn ended_sessions_are_gone(
    e: EngineView,
    channel: u16,
    end: EndView,
    fresh: u64,
    other: u64,
    actions: Seq<ActionView>,
)
    requires
        entries::distinct(e.sessions),
        entries::distinct(e.pending_sessions),
    ensures
        ({
            let frame = frame_on(channel, PerformativeView::End(end));
            let step = engine::frame_step(e, frame, fresh, other, actions);
            &&& step.verdict is Continue
            &&& session_on(step.engine, channel) is None
            &&& entries::looked_up(step.engine.pending_sessions, channel) is None
            &&& step.actions.last() == wrote(
                channel,
                PerformativeView::End(EndView { error: None }),
            )
            &&& forall|on: u16|
                on != channel ==> #[trigger] session_on(step.engine, on) == session_on(e, on)
        }),
{
    let frame = frame_on(channel, PerformativeView::End(end));
    let step = engine::frame_step(e, frame, fresh, other, actions);
    entries::removal_is_looked_up(e.sessions, channel, channel);
    entries::removal_is_looked_up(e.pending_sessions, channel, channel);
    assert forall|on: u16| on != channel implies #[trigger] session_on(step.engine, on)
        == session_on(e, on) by {
        entries::removal_is_looked_up(e.sessions, channel, on);
    }
}

// ---- links -----------------------------------------------------------------

/// A link that the peer attaches to a session that takes links waits to be accepted, and
/// is told of. Without a session, and under a handle that is taken, it ends the
/// connection.
pub proof fn attached_links_wait(
    e: EngineView,
    channel: u16,
    attach: AttachView,
    fresh: u64,
    other: u64,
    actions: Seq<ActionView>,
)
    ensures
        ({
            let frame = frame_on(channel, PerformativeView::Attach(attach));
            let step = engine::frame_step(e, frame, other, fresh, actions);
            match session_on(e, channel) {
                None => only_fails(step, actions, StateFault::AttachOnUnknownSession)
                    && step.engine == e,
                Some(s) => {
                    let taken = entries::looked_up(s.links, attach.handle) is Some
                        || entries::looked_up(s.pending_attaches, attach.handle) is Some;
                    &&& taken ==> only_fails(step, actions, StateFault::HandleInUse)
                        && step.engine == e
                    &&& !taken && !s.accepts_links ==> only_fails(
                        step,
                        actions,
                        StateFault::NoRemoteLinks,
                    )
                    &&& !taken && s.accepts_links ==> {
                        &&& step.verdict is Continue
                        &&& step.actions == actions.push(
                            ActionView::Attached {
                                session: s.incarnation,
                                incarnation: fresh,
                                attach,
                            },
                        )
                        &&& session_on(step.engine, channel) matches Some(now)
                        &&& entries::looked_up(now.pending_attaches, attach.handle) == Some(fresh)
                        &&& now.links == s.links
                        &&& now.next_outgoing_id == s.next_outgoing_id
                    }
                },
            }
        }),
{
    if let Some(s) = session_on(e, channel) {
        let waiting = entries::inserted(s.pending_attaches, attach.handle, fresh);
        entries::insertion_is_looked_up(
            e.sessions,
            channel,
            SessionView { pending_attaches: waiting, ..s },
            channel,
        );
        entries::insertion_is_looked_up(s.pending_attaches, attach.handle, fresh, attach.handle);
    }
}

/// Whether an attach answers another: the same link under the same handle, seen from the
/// other end.
pub open spec fn answers(
    answer: AttachView,
    attach: AttachView,
    max_message_size: u64,
    properties: Option<FieldsView>,
) -> bool {
    &&& answer.name == attach.name
    &&& answer.handle == attach.handle
    &&& attach.role is Sender ==> answer.role is Receiver
    &&& attach.role is Receiver ==> answer.role is Sender
    &&& answer.snd_settle_mode == attach.snd_settle_mode
    &&& answer.rcv_settle_mode == attach.rcv_settle_mode
    &&& answer.source == attach.source
    &&& answer.target == attach.target
    &&& answer.unsettled is None
    &&& attach.role is Receiver ==> answer.initial_delivery_count == Some(0u32)
        && answer.max_message_size is None
    &&& attach.role is Sender ==> answer.initial_delivery_count is None && answer.max_message_size
        == Some(max_message_size)
    &&& answer.properties == properties
}

/// Whether a flow gives a sender its first credit.
pub open spec fn gives_first_credit(flow: FlowView, handle: u32) -> bool {
    &&& flow.handle == Some(handle)
    &&& flow.delivery_count == Some(0u32)
    &&& flow.link_credit == Some(2_048u32)
    &&& flow.incoming_window == 2_048
    &&& flow.outgoing_window == 2_048
    &&& !flow.drain
    &&& !flow.echo
}

/// A link that waits is accepted: the peer is answered, a sender is given credit, and the
/// link is there, at the opposite end. This is told where no flow came before.
pub proof fn waiting_links_are_accepted(
    e: EngineView,
    channel: u16,
    s: SessionView,
    incarnation: u64,
    attach: AttachView,
    max_message_size: u64,
    properties: Option<FieldsView>,
    ticket: u64,
    actions: Seq<ActionView>,
)
    requires
        session_on(e, channel) == Some(s),
        entries::looked_up(s.pending_attaches, attach.handle) == Some(incarnation),
        entries::looked_up(s.links, attach.handle) is None,
        entries::looked_up(s.pending_flows, attach.handle) is None,
    ensures
        ({
            let request = CommandView::AcceptLink {
                channel,
                session_incarnation: s.incarnation,
                incarnation,
                attach,
                max_message_size,
                properties,
                ticket,
            };
            let step = engine::command_step(e, request, actions);
            let from = actions.len() as int;
            &&& step.verdict is Continue
            &&& step.actions.last() == answered(ticket, ReplyView::Attached(incarnation))
            &&& step.actions[from] matches ActionView::Write {
                channel: on,
                performative: PerformativeView::Attach(answer),
                ..
            }
            &&& on == channel
            &&& answers(answer, attach, max_message_size, properties)
            &&& attach.role is Sender ==> {
                &&& step.actions.len() == from + 3
                &&& step.actions[from + 1] matches ActionView::Write {
                    channel: on,
                    performative: PerformativeView::Flow(flow),
                    ..
                }
                &&& on == channel
                &&& gives_first_credit(flow, attach.handle)
                &&& link_under(step.engine, channel, attach.handle) matches Some(
                    LinkView::Receiving(receiving),
                )
                &&& receiving.incarnation == incarnation
                &&& receiving.max_message_size == max_message_size
                &&& receiving.partial is None
            }
            &&& attach.role is Receiver ==> {
                &&& step.actions.len() == from + 2
                &&& link_under(step.engine, channel, attach.handle) matches Some(
                    LinkView::Sending(sending),
                )
                &&& sending.drain.incarnation == incarnation
                &&& sending.settle_mode == attach.snd_settle_mode
                &&& sending.receiver_settle_mode == attach.rcv_settle_mode
                &&& sending.delivery_count == 0
                &&& sending.credit_limit == 0
                &&& sending.queued.len() == 0
                &&& sending.unsettled.len() == 0
                &&& sending.credit_reservations.len() == 0
            }
        }),
{
    let new = engine::local_link(attach, incarnation, max_message_size);
    let attached = SessionView {
        pending_attaches: entries::removed(s.pending_attaches, attach.handle),
        links: entries::inserted(s.links, attach.handle, new),
        pending_flows: entries::removed(s.pending_flows, attach.handle),
        ..s
    };
    entries::insertion_is_looked_up(e.sessions, channel, attached, channel);
    entries::insertion_is_looked_up(s.links, attach.handle, new, attach.handle);
}

/// A link that waits no more is not accepted.
pub proof fn other_links_are_not_accepted(
    e: EngineView,
    channel: u16,
    session_incarnation: u64,
    incarnation: u64,
    attach: AttachView,
    max_message_size: u64,
    properties: Option<FieldsView>,
    ticket: u64,
    actions: Seq<ActionView>,
)
    requires
        session_on(e, channel) matches Some(s) ==> s.incarnation != session_incarnation
            || entries::looked_up(s.pending_attaches, attach.handle) != Some(incarnation),
    ensures
        only_adds(
            engine::command_step(
                e,
                CommandView::AcceptLink {
                    channel,
                    session_incarnation,
                    incarnation,
                    attach,
                    max_message_size,
                    properties,
                    ticket,
                },
                actions,
            ),
            e,
            actions,
            answered(ticket, ReplyView::Failed(EngineError::RemoteDetached)),
        ),
{
}

/// A link that the peer detaches is gone, and that is answered last. A detach of a link
/// that is not there is ignored.
pub proof fn detached_links_are_gone(
    e: EngineView,
    channel: u16,
    detach: DetachView,
    fresh: u64,
    other: u64,
    actions: Seq<ActionView>,
)
    requires
        session_on(e, channel) matches Some(s) ==> entries::distinct(s.links)
            && entries::distinct(s.pending_attaches),
    ensures
        ({
            let frame = frame_on(channel, PerformativeView::Detach(detach));
            let step = engine::frame_step(e, frame, fresh, other, actions);
            let waits = session_on(e, channel) matches Some(s) && entries::looked_up(
                s.pending_attaches,
                detach.handle,
            ) is Some;
            &&& step.verdict is Continue
            &&& link_under(step.engine, channel, detach.handle) is None
            &&& link_under(e, channel, detach.handle) is Some || waits ==> step.actions.last()
                == wrote(
                channel,
                PerformativeView::Detach(
                    DetachView { handle: detach.handle, closed: true, error: None },
                ),
            )
            &&& link_under(e, channel, detach.handle) is None && !waits ==> step.engine == e
                && step.actions == actions
        }),
{
    if let Some(s) = session_on(e, channel) {
        let links = entries::removed(s.links, detach.handle);
        entries::removal_is_looked_up(s.links, detach.handle, detach.handle);
        entries::insertion_is_looked_up(
            e.sessions,
            channel,
            SessionView { links, ..s },
            channel,
        );
        entries::insertion_is_looked_up(
            e.sessions,
            channel,
            SessionView {
                pending_attaches: entries::removed(s.pending_attaches, detach.handle),
                pending_flows: entries::removed(s.pending_flows, detach.handle),
                ..s
            },
            channel,
        );
    }
}

/// A link that this end closes is gone, and the peer is told why. A request for one that
/// is gone already, or was replaced, is answered and does nothing.
pub proof fn closed_links_are_gone(
    e: EngineView,
    channel: u16,
    handle: u32,
    incarnation: u64,
    error: Option<ErrorView>,
    ticket: u64,
    actions: Seq<ActionView>,
)
    requires
        session_on(e, channel) matches Some(s) ==> entries::distinct(s.links),
    ensures
        ({
            let request = CommandView::Detach { channel, handle, incarnation, error, ticket };
            let step = engine::command_step(e, request, actions);
            let there = link_under(e, channel, handle) matches Some(found)
                && link::link_incarnation(found) == incarnation;
            &&& step.verdict is Continue
            &&& !there ==> only_adds(step, e, actions, answered(ticket, ReplyView::Done))
            &&& there ==> {
                &&& link_under(step.engine, channel, handle) is None
                &&& step.actions.last() == answered(ticket, ReplyView::Done)
            }
        }),
{
    if let Some(s) = session_on(e, channel) {
        let links = entries::removed(s.links, handle);
        entries::removal_is_looked_up(s.links, handle, handle);
        entries::insertion_is_looked_up(e.sessions, channel, SessionView { links, ..s }, channel);
    }
}

// ---- deliveries ------------------------------------------------------------

/// A delivery that came on a link is settled with the state that was given: the peer is
/// told as by the receiving end. It is refused without the session or the link.
pub proof fn received_deliveries_are_settled(
    e: EngineView,
    channel: u16,
    handle: u32,
    incarnation: u64,
    delivery_id: u32,
    state: DeliveryStateView,
    ticket: u64,
    actions: Seq<ActionView>,
)
    ensures
        ({
            let request = CommandView::Settle {
                channel,
                handle,
                incarnation,
                delivery_id,
                state,
                ticket,
            };
            let step = engine::command_step(e, request, actions);
            let there = link_under(e, channel, handle) matches Some(
                LinkView::Receiving(receiving),
            ) && receiving.incarnation == incarnation;
            if session_on(e, channel) is None {
                only_adds(
                    step,
                    e,
                    actions,
                    answered(ticket, ReplyView::Failed(EngineError::RemoteDetached)),
                )
            } else if !there {
                only_adds(
                    step,
                    e,
                    actions,
                    answered(
                        ticket,
                        ReplyView::Failed(
                            EngineError::InvalidState(StateFault::SettleOnUnknownLink),
                        ),
                    ),
                )
            } else {
                &&& step.engine == e
                &&& step.verdict is Continue
                &&& step.actions == actions.push(
                    wrote(
                        channel,
                        PerformativeView::Disposition(
                            DispositionView {
                                role: Role::Receiver,
                                first: delivery_id,
                                last: None,
                                settled: true,
                                state: Some(state),
                                batchable: false,
                            },
                        ),
                    ),
                ).push(answered(ticket, ReplyView::Done))
            }
        }),
{
}

/// A delivery that went out on a link is confirmed with the state that was given: the
/// peer is told as by the sending end. It is refused without the session or the link.
pub proof fn sent_deliveries_are_confirmed(
    e: EngineView,
    channel: u16,
    handle: u32,
    incarnation: u64,
    delivery_id: u32,
    state: DeliveryStateView,
    batchable: bool,
    ticket: u64,
    actions: Seq<ActionView>,
)
    ensures
        ({
            let request = CommandView::Confirm {
                channel,
                handle,
                incarnation,
                delivery_id,
                state,
                batchable,
                ticket,
            };
            let step = engine::command_step(e, request, actions);
            let there = link_under(e, channel, handle) matches Some(LinkView::Sending(sending))
                && sending.drain.incarnation == incarnation;
            let refused = |fault: StateFault|
                only_adds(
                    step,
                    e,
                    actions,
                    answered(ticket, ReplyView::Failed(EngineError::InvalidState(fault))),
                );
            if session_on(e, channel) is None {
                refused(StateFault::ConfirmOnUnknownSession)
            } else if !there {
                refused(StateFault::ConfirmOnUnknownLink)
            } else {
                &&& step.engine == e
                &&& step.verdict is Continue
                &&& step.actions == actions.push(
                    wrote(
                        channel,
                        PerformativeView::Disposition(
                            DispositionView {
                                role: Role::Sender,
                                first: delivery_id,
                                last: None,
                                settled: true,
                                state: Some(state),
                                batchable,
                            },
                        ),
                    ),
                ).push(answered(ticket, ReplyView::Done))
            }
        }),
{
}

// ---- credit ----------------------------------------------------------------

/// A flow allows as many deliveries as it says behind the count that it names, or behind
/// those that were sent. One that says nothing of credit changes none, and no flow changes
/// what was sent or what waits.
pub proof fn flows_say_how_much_may_be_sent(
    sending: SendingView,
    channel: u16,
    handle: u32,
    flow: FlowView,
    actions: Seq<ActionView>,
)
    ensures
        ({
            let now = link::flow_taken(sending, channel, handle, flow, actions).0;
            &&& flow.link_credit is None ==> now.credit_limit == sending.credit_limit
            &&& flow.link_credit matches Some(credit) ==> {
                &&& flow.delivery_count matches Some(count) ==> now.credit_limit == count + credit
                &&& flow.delivery_count is None ==> now.credit_limit == sending.delivery_count
                    + credit
            }
            &&& now.delivery_count == sending.delivery_count
            &&& now.queued == sending.queued
            &&& now.unsettled == sending.unsettled
            &&& now.credit_reservations == sending.credit_reservations
            &&& now.drain.incarnation == sending.drain.incarnation
            &&& now.drain.current is Some <==> flow.drain
            &&& flow.drain ==> now.drain.current->Some_0.credit_limit == now.credit_limit
        }),
{
}

// ---- what comes over a link ------------------------------------------------

/// A message that comes in one transfer is delivered as it came, under its id, if it is
/// no larger than the link takes and can be read.
pub proof fn whole_messages_are_delivered(
    receiving: ReceivingView,
    transfer: TransferView,
    payload: Seq<u8>,
    actions: Seq<ActionView>,
)
    requires
        receiving.partial is None,
        !transfer.aborted,
        !transfer.more,
    ensures
        ({
            let taken = link::received(receiving, transfer, payload, actions);
            let failed = |error: EngineError|
                taken.error == Some(error) && taken.actions == actions;
            match transfer.delivery_id {
                None => failed(EngineError::InvalidState(StateFault::NoDeliveryId)) && taken.link
                    == receiving,
                Some(id) => {
                    &&& taken.link == receiving
                    &&& payload.len() > receiving.max_message_size ==> failed(
                        EngineError::InvalidState(StateFault::MessageTooLarge),
                    )
                    &&& payload.len() <= receiving.max_message_size ==> match message::message_of(
                        payload,
                    ) {
                        Err(fault) => failed(EngineError::Codec(fault)),
                        Ok(read) => {
                            &&& taken.error is None
                            &&& taken.actions.len() == actions.len() + 1
                            &&& taken.actions.last() matches ActionView::Deliver { link, delivery }
                            &&& link == receiving.incarnation
                            &&& delivery.id == id
                            &&& delivery.message == read
                            &&& delivery.encoded_message == payload
                            &&& delivery.settled <==> transfer.settled == Some(true)
                            &&& delivery.message_format == if transfer.message_format is Some {
                                transfer.message_format->Some_0
                            } else {
                                0u32
                            }
                        },
                    }
                },
            }
        }),
{
}

/// A message that comes in parts is put together in their order, and only as far as the
/// link takes it. One that is aborted is forgotten.
pub proof fn parts_are_put_together(
    receiving: ReceivingView,
    before: PartialView,
    transfer: TransferView,
    payload: Seq<u8>,
    actions: Seq<ActionView>,
)
    requires
        receiving.partial == Some(before),
        transfer.message_format matches Some(format) ==> format == before.message_format,
    ensures
        ({
            let taken = link::received(receiving, transfer, payload, actions);
            let whole = before.bytes + payload;
            &&& taken.link.incarnation == receiving.incarnation
            &&& taken.link.max_message_size == receiving.max_message_size
            &&& transfer.aborted ==> taken.link.partial is None && taken.error is None
                && taken.actions == actions
            &&& !transfer.aborted && whole.len() > receiving.max_message_size ==> {
                &&& taken.link.partial is None
                &&& taken.actions == actions
                &&& taken.error == Some(EngineError::InvalidState(StateFault::MessageTooLarge))
            }
            &&& !transfer.aborted && whole.len() <= receiving.max_message_size && transfer.more
                ==> {
                &&& taken.error is None
                &&& taken.actions == actions
                &&& taken.link.partial matches Some(now)
                &&& now.bytes == whole
                &&& now.id == before.id
                &&& now.settled == before.settled
                &&& now.message_format == before.message_format
            }
            &&& !transfer.aborted && whole.len() <= receiving.max_message_size && !transfer.more
                ==> (message::message_of(whole) matches Ok(read) ==> {
                &&& taken.error is None
                &&& taken.link.partial is None
                &&& taken.actions.len() == actions.len() + 1
                &&& taken.actions.last() matches ActionView::Deliver { link, delivery }
                &&& link == receiving.incarnation
                &&& delivery.id == before.id
                &&& delivery.settled == before.settled
                &&& delivery.message_format == before.message_format
                &&& delivery.message == read
                &&& delivery.encoded_message == whole
            })
        }),
{
}

/// What a sender has to confirm once its delivery is settled: something only where the
/// receiving end settles second, and has not settled yet.
pub open spec fn to_be_confirmed(
    sending: SendingView,
    handle: u32,
    id: u32,
    settled: bool,
    batchable: bool,
) -> Option<PendingConfirmation> {
    if sending.receiver_settle_mode is Second && !settled {
        Some(
            PendingConfirmation {
                handle,
                incarnation: sending.drain.incarnation,
                delivery_id: id,
                batchable,
            },
        )
    } else {
        None
    }
}

/// Settling a range only adds to what there is to do.
proof fn settling_only_adds(
    sending: SendingView,
    handle: u32,
    first: u32,
    last: u32,
    outcome: DeliveryStateView,
    settled: bool,
    batchable: bool,
    actions: Seq<ActionView>,
    one: ActionView,
)
    requires
        actions.contains(one),
    ensures
        link::settled_range(
            sending,
            handle,
            first,
            last,
            outcome,
            settled,
            batchable,
            actions,
        ).1.contains(one),
    decreases sending.unsettled.len(),
{
    if let Some(id) = link::least_in(sending.unsettled, first, last, 0, None) {
        let rest = entries::removed(sending.unsettled, id);
        let told = ActionView::Reply {
            ticket: entries::looked_up(sending.unsettled, id)->0,
            reply: ReplyView::Settled(
                outcome,
                to_be_confirmed(sending, handle, id, settled, batchable),
            ),
        };
        let k = choose|k: int| 0 <= k < actions.len() && actions[k] == one;
        assert(actions.push(told)[k] == one);
        if rest.len() < sending.unsettled.len() {
            settling_only_adds(
                SendingView { unsettled: rest, ..sending },
                handle,
                first,
                last,
                outcome,
                settled,
                batchable,
                actions.push(told),
                one,
            );
        }
    }
}

/// Whoever sent a delivery that is settled is told the outcome, and whether it is to be
/// confirmed.
pub proof fn settled_deliveries_are_told(
    sending: SendingView,
    handle: u32,
    first: u32,
    last: u32,
    outcome: DeliveryStateView,
    settled: bool,
    batchable: bool,
    actions: Seq<ActionView>,
    id: u32,
    ticket: u64,
)
    requires
        entries::distinct(sending.unsettled),
        entries::looked_up(sending.unsettled, id) == Some(ticket),
        first <= id <= last,
    ensures
        link::settled_range(
            sending,
            handle,
            first,
            last,
            outcome,
            settled,
            batchable,
            actions,
        ).1.contains(
            answered(
                ticket,
                ReplyView::Settled(
                    outcome,
                    to_be_confirmed(sending, handle, id, settled, batchable),
                ),
            ),
        ),
    decreases sending.unsettled.len(),
{
    let told = |n: u32|
        answered(
            entries::looked_up(sending.unsettled, n)->0,
            ReplyView::Settled(outcome, to_be_confirmed(sending, handle, n, settled, batchable)),
        );
    laws::ranges_are_settled_whole(
        sending,
        handle,
        first,
        last,
        outcome,
        settled,
        batchable,
        actions,
        id,
    );
    if let Some(least) = link::least_in(sending.unsettled, first, last, 0, None) {
        let rest = entries::removed(sending.unsettled, least);
        let longer = actions.push(told(least));
        let next = SendingView { unsettled: rest, ..sending };
        entries::removal_is_looked_up(sending.unsettled, least, id);
        entries::removal_is_looked_up(sending.unsettled, least, least);
        if rest.len() < sending.unsettled.len() {
            if least == id {
                assert(longer.last() == told(id));
                assert(longer.contains(told(id)));
                settling_only_adds(
                    next,
                    handle,
                    first,
                    last,
                    outcome,
                    settled,
                    batchable,
                    longer,
                    told(id),
                );
            } else {
                settled_deliveries_are_told(
                    next,
                    handle,
                    first,
                    last,
                    outcome,
                    settled,
                    batchable,
                    longer,
                    id,
                    ticket,
                );
            }
        }
    }
}

/// A disposition settles nothing when it comes from a sender, has no outcome or not the
/// last one, names no deliveries, or is for a session that is not there.
pub proof fn other_dispositions_settle_nothing(
    e: EngineView,
    channel: u16,
    disposition: DispositionView,
    fresh: u64,
    other: u64,
    actions: Seq<ActionView>,
)
    requires
        disposition.role is Sender || disposition.state is None || disposition.state->Some_0
            is Received || (disposition.last matches Some(last) && last < disposition.first)
            || session_on(e, channel) is None,
    ensures
        ({
            let frame = frame_on(channel, PerformativeView::Disposition(disposition));
            let step = engine::frame_step(e, frame, fresh, other, actions);
            step.engine == e && step.actions == actions && step.verdict is Continue
        }),
{
}

// ---- addresses -------------------------------------------------------------

/// An address leads to its host, at its port or at the usual one.
pub proof fn addresses_lead_to_their_host(address: UriView)
    ensures
        match address.host {
            None => connect::endpoint_of(address) == Err::<(Seq<char>, u16), EngineError>(
                EngineError::InvalidState(StateFault::NoHost),
            ),
            Some(host) => {
                &&& connect::endpoint_of(address) matches Ok((leads_to, at))
                &&& leads_to == host
                &&& address.port matches Some(port) ==> at == port
                &&& address.port is None ==> at == 5672
            },
        },
{
}

} // verus!
