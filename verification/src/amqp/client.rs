//! The requesting end of a connection: what frames and requests do to it.

use vstd::prelude::*;

use crate::amqp::engine;
use crate::amqp::engine::{
    detach_frame, grant_flow, refuse, refuse_send, settlement, tell,
};
use crate::amqp::entries;
use crate::amqp::entries::OrderedMap;
use crate::amqp::frame::{Frame, FrameView};
use crate::amqp::link;
use crate::amqp::link::{
    answer, send_frame, stop_link, Action, ActionView, Delivery, EngineError, LinkState, LinkView,
    QueuedSend,
    QueuedView, ReceivingLink, ReceivingView, Reply, ReplyView, SendingLink, SendingView,
    StateFault,
};
use crate::amqp::session;
use crate::amqp::session::{
    apply_disposition, apply_flow, flush_link, receive_transfer, stop_links, stop_sessions,
    SessionState, SessionView, Stepped,
};
use crate::amqp::types::{
    Attach, AttachView, Begin, BeginView, Close, CloseView, DeliveryState, DeliveryStateView,
    DeliveryTag, End, EndView, Message, Performative, PerformativeView, ReceiverSettleMode, Role,
    SenderSettleMode, Source, SourceView, Target, TargetView,
};
use crate::bytes;

verus! {

/// A link to attach.
#[derive(Debug, PartialEq, Eq)]
pub struct AttachRequest {
    pub name: String,
    pub role: Role,
    pub sender_settle_mode: SenderSettleMode,
    pub receiver_settle_mode: ReceiverSettleMode,
    pub source: Option<Source>,
    pub target: Option<Target>,
}

pub struct AttachRequestView {
    pub name: Seq<char>,
    pub role: Role,
    pub sender_settle_mode: SenderSettleMode,
    pub receiver_settle_mode: ReceiverSettleMode,
    pub source: Option<SourceView>,
    pub target: Option<TargetView>,
}

impl DeepView for AttachRequest {
    type V = AttachRequestView;

    open spec fn deep_view(&self) -> AttachRequestView {
        AttachRequestView {
            name: self.name@,
            role: self.role,
            sender_settle_mode: self.sender_settle_mode,
            receiver_settle_mode: self.receiver_settle_mode,
            source: self.source.deep_view(),
            target: self.target.deep_view(),
        }
    }
}

impl AttachRequest {
    /// A link that sends to a target.
    pub fn sender(name: String, target: Target) -> (request: AttachRequest)
        ensures
            request.deep_view() == (AttachRequestView {
                name: name@,
                role: Role::Sender,
                sender_settle_mode: SenderSettleMode::Mixed,
                receiver_settle_mode: ReceiverSettleMode::First,
                source: None,
                target: Some(target.deep_view()),
            }),
    {
        AttachRequest {
            name,
            role: Role::Sender,
            sender_settle_mode: SenderSettleMode::Mixed,
            receiver_settle_mode: ReceiverSettleMode::First,
            source: None,
            target: Some(target),
        }
    }

    /// A link that receives from a source.
    pub fn receiver(
        name: String,
        source: Source,
        target: Option<Target>,
        sender_settle_mode: SenderSettleMode,
    ) -> (request: AttachRequest)
        ensures
            request.deep_view() == (AttachRequestView {
                name: name@,
                role: Role::Receiver,
                sender_settle_mode,
                receiver_settle_mode: ReceiverSettleMode::First,
                source: Some(source.deep_view()),
                target: target.deep_view(),
            }),
    {
        AttachRequest {
            name,
            role: Role::Receiver,
            sender_settle_mode,
            receiver_settle_mode: ReceiverSettleMode::First,
            source: Some(source),
            target,
        }
    }
}

/// The tag of a sender's next delivery: its number, which wraps around.
pub fn next_delivery_tag(next: &mut u64) -> (tag: DeliveryTag)
    ensures
        tag@ == bytes::be(*old(next) as nat, 8),
        *final(next) == old(next).wrapping_add(1),
{
    let mut tag: Vec<u8> = Vec::new();
    bytes::push_be64(&mut tag, *next);
    *next = next.wrapping_add(1);
    proof {
        assert(tag@ =~= bytes::be(*old(next) as nat, 8));
    }
    tag
}

/// The request that settles a delivery. One that the peer has settled needs none.
pub fn settle_delivery(
    channel: u16,
    handle: u32,
    incarnation: u64,
    delivery: &Delivery,
    state: DeliveryState,
    ticket: u64,
) -> (command: Option<ClientCommand>)
    ensures
        command is None <==> delivery.deep_view().settled,
        command matches Some(command) ==> command.deep_view() == (ClientCommandView::Settle {
            channel,
            handle,
            incarnation,
            delivery_id: delivery.deep_view().id,
            state: state.deep_view(),
            ticket,
        }),
{
    if delivery.settled {
        None
    } else {
        Some(
            ClientCommand::Settle {
                channel,
                handle,
                incarnation,
                delivery_id: delivery.id,
                state,
                ticket,
            },
        )
    }
}

/// What an application asks of a connection. The answer to each bears its ticket.
#[derive(Debug, PartialEq, Eq)]
pub enum ClientCommand {
    Begin { ticket: u64 },
    Attach { channel: u16, request: AttachRequest, ticket: u64 },
    Send {
        channel: u16,
        handle: u32,
        incarnation: u64,
        message: Message,
        message_format: u32,
        delivery_tag: DeliveryTag,
        ticket: u64,
    },
    Settle {
        channel: u16,
        handle: u32,
        incarnation: u64,
        delivery_id: u32,
        state: DeliveryState,
        ticket: u64,
    },
    Detach { channel: u16, handle: u32, incarnation: u64, ticket: u64 },
    End { channel: u16, ticket: u64 },
    Close { ticket: u64 },
}

pub enum ClientCommandView {
    Begin { ticket: u64 },
    Attach { channel: u16, request: AttachRequestView, ticket: u64 },
    Send { channel: u16, handle: u32, incarnation: u64, send: QueuedView },
    Settle {
        channel: u16,
        handle: u32,
        incarnation: u64,
        delivery_id: u32,
        state: DeliveryStateView,
        ticket: u64,
    },
    Detach { channel: u16, handle: u32, incarnation: u64, ticket: u64 },
    End { channel: u16, ticket: u64 },
    Close { ticket: u64 },
}

impl DeepView for ClientCommand {
    type V = ClientCommandView;

    open spec fn deep_view(&self) -> ClientCommandView {
        match self {
            ClientCommand::Begin { ticket } => ClientCommandView::Begin { ticket: *ticket },
            ClientCommand::Attach { channel, request, ticket } => ClientCommandView::Attach {
                channel: *channel,
                request: request.deep_view(),
                ticket: *ticket,
            },
            ClientCommand::Send {
                channel,
                handle,
                incarnation,
                message,
                message_format,
                delivery_tag,
                ticket,
            } => ClientCommandView::Send {
                channel: *channel,
                handle: *handle,
                incarnation: *incarnation,
                send: QueuedView {
                    message: message.deep_view(),
                    message_format: *message_format,
                    delivery_tag: delivery_tag@,
                    reservation: None,
                    ticket: *ticket,
                },
            },
            ClientCommand::Settle { channel, handle, incarnation, delivery_id, state, ticket } =>
                ClientCommandView::Settle {
                channel: *channel,
                handle: *handle,
                incarnation: *incarnation,
                delivery_id: *delivery_id,
                state: state.deep_view(),
                ticket: *ticket,
            },
            ClientCommand::Detach { channel, handle, incarnation, ticket } =>
                ClientCommandView::Detach {
                channel: *channel,
                handle: *handle,
                incarnation: *incarnation,
                ticket: *ticket,
            },
            ClientCommand::End { channel, ticket } => ClientCommandView::End {
                channel: *channel,
                ticket: *ticket,
            },
            ClientCommand::Close { ticket } => ClientCommandView::Close { ticket: *ticket },
        }
    }
}

/// A link that waits for the peer to accept it.
#[derive(Clone, Copy, Debug, PartialEq, Eq, Structural)]
pub struct PendingAttach {
    pub handle: u32,
    pub incarnation: u64,
    pub ticket: u64,
}

impl DeepView for PendingAttach {
    type V = PendingAttach;

    open spec fn deep_view(&self) -> PendingAttach {
        *self
    }
}

/// What becomes of the connection.
#[derive(Clone, Copy, Debug, PartialEq, Eq, Structural)]
pub enum ClientVerdict {
    Continue,
    /// It ends, and everything on it is stopped.
    Ended,
    /// It fails, and everything on it is dropped.
    Failed(EngineError),
}

/// The requesting end of a connection.
#[derive(Debug, PartialEq, Eq)]
pub struct Client {
    pub sessions: OrderedMap<u16, SessionState>,
    pub next_channel: u16,
    pub next_handles: OrderedMap<u16, u32>,
    /// The tickets of the sessions that the peer has not accepted, by channel.
    pub pending_begins: OrderedMap<u16, u64>,
    /// The links that the peer has not accepted, by name.
    pub pending_attaches: OrderedMap<String, PendingAttach>,
    /// The tickets of the links that the peer has not detached.
    pub pending_detaches: OrderedMap<(u16, u32), u64>,
    pub closing: Option<u64>,
    pub remote_max_frame_size: u32,
}

pub struct ClientView {
    pub sessions: Seq<(u16, SessionView)>,
    pub next_channel: u16,
    pub next_handles: Seq<(u16, u32)>,
    pub pending_begins: Seq<(u16, u64)>,
    pub pending_attaches: Seq<(Seq<char>, PendingAttach)>,
    pub pending_detaches: Seq<((u16, u32), u64)>,
    pub closing: Option<u64>,
    pub remote_max_frame_size: u32,
}

impl DeepView for Client {
    type V = ClientView;

    open spec fn deep_view(&self) -> ClientView {
        ClientView {
            sessions: self.sessions.deep_view(),
            next_channel: self.next_channel,
            next_handles: self.next_handles.deep_view(),
            pending_begins: self.pending_begins.deep_view(),
            pending_attaches: self.pending_attaches.deep_view(),
            pending_detaches: self.pending_detaches.deep_view(),
            closing: self.closing,
            remote_max_frame_size: self.remote_max_frame_size,
        }
    }
}

pub struct ClientStep {
    pub client: ClientView,
    pub actions: Seq<ActionView>,
    pub verdict: ClientVerdict,
}

pub open spec fn client_ran(
    verdict: ClientVerdict,
    client: ClientView,
    actions: Seq<ActionView>,
    step: ClientStep,
) -> bool {
    client == step.client && actions == step.actions && verdict == step.verdict
}

pub open spec fn going_on(client: ClientView, actions: Seq<ActionView>) -> ClientStep {
    ClientStep { client, actions, verdict: ClientVerdict::Continue }
}

pub open spec fn on_sessions(c: ClientView, step: Stepped) -> ClientStep {
    ClientStep {
        client: ClientView { sessions: step.sessions, ..c },
        actions: step.actions,
        verdict: match step.error {
            None => ClientVerdict::Continue,
            Some(error) => ClientVerdict::Failed(error),
        },
    }
}

// ---- frames ----------------------------------------------------------------

pub open spec fn begin_step(c: ClientView, channel: u16, actions: Seq<ActionView>) -> ClientStep {
    going_on(
        ClientView { pending_begins: entries::removed(c.pending_begins, channel), ..c },
        match entries::looked_up(c.pending_begins, channel) {
            Some(ticket) => actions.push(link::replied(ticket, ReplyView::Begun(channel))),
            None => actions,
        },
    )
}

/// Takes the answer to an attach. A peer that sends is granted credit.
pub open spec fn attach_step(
    c: ClientView,
    channel: u16,
    attach: AttachView,
    actions: Seq<ActionView>,
) -> ClientStep {
    let waiting = ClientView {
        pending_attaches: entries::removed(c.pending_attaches, attach.name),
        ..c
    };
    match entries::looked_up(c.pending_attaches, attach.name) {
        None => going_on(waiting, actions),
        Some(pending) => {
            let granted = if attach.role == Role::Sender {
                actions.push(
                    link::written(
                        channel,
                        PerformativeView::Flow(engine::granting(pending.handle, 0)),
                    ),
                )
            } else {
                actions
            };
            going_on(
                waiting,
                granted.push(
                    link::replied(
                        pending.ticket,
                        ReplyView::Opened {
                            handle: pending.handle,
                            incarnation: pending.incarnation,
                            attach,
                        },
                    ),
                ),
            )
        },
    }
}

/// Takes a detach, which answers this end's own, or is answered.
pub open spec fn detach_step(
    c: ClientView,
    channel: u16,
    handle: u32,
    actions: Seq<ActionView>,
) -> ClientStep {
    let (sessions, stopped) = match entries::looked_up(c.sessions, channel) {
        Some(s) => match entries::looked_up(s.links, handle) {
            Some(gone) => (
                entries::inserted(
                    c.sessions,
                    channel,
                    SessionView { links: entries::removed(s.links, handle), ..s },
                ),
                link::stopped(gone, actions),
            ),
            None => (c.sessions, actions),
        },
        None => (c.sessions, actions),
    };
    going_on(
        ClientView {
            sessions,
            pending_detaches: entries::removed(c.pending_detaches, (channel, handle)),
            ..c
        },
        match entries::looked_up(c.pending_detaches, (channel, handle)) {
            Some(ticket) => stopped.push(link::replied(ticket, ReplyView::Done)),
            None => stopped.push(link::written(channel, engine::detaching(handle, None))),
        },
    )
}

pub open spec fn end_step(c: ClientView, channel: u16, actions: Seq<ActionView>) -> ClientStep {
    going_on(
        ClientView { sessions: entries::removed(c.sessions, channel), ..c },
        ended_links(c.sessions, channel, actions),
    )
}

/// Stops the links of a session that ends.
pub open spec fn ended_links(
    sessions: Seq<(u16, SessionView)>,
    channel: u16,
    actions: Seq<ActionView>,
) -> Seq<ActionView> {
    match entries::looked_up(sessions, channel) {
        Some(s) => session::stopped_links(s.links, 0, actions),
        None => actions,
    }
}

pub open spec fn closing() -> PerformativeView {
    PerformativeView::Close(CloseView { error: None })
}

pub open spec fn close_step(c: ClientView, actions: Seq<ActionView>) -> ClientStep {
    ClientStep {
        client: ClientView { closing: None, ..c },
        actions: match c.closing {
            Some(ticket) => actions.push(link::replied(ticket, ReplyView::Done)),
            None => actions.push(link::written(0, closing())),
        },
        verdict: ClientVerdict::Ended,
    }
}

/// What a frame does to a connection.
pub open spec fn frame_step(
    c: ClientView,
    frame: FrameView,
    actions: Seq<ActionView>,
) -> ClientStep {
    match frame {
        FrameView::Sasl(_) => ClientStep { client: c, actions, verdict: ClientVerdict::Ended },
        FrameView::Amqp { channel, performative: None, payload } => going_on(c, actions),
        FrameView::Amqp { channel, performative: Some(performative), payload } => {
            match performative {
                PerformativeView::Begin(_) => begin_step(c, channel, actions),
                PerformativeView::Attach(attach) => attach_step(c, channel, attach, actions),
                PerformativeView::Flow(flow) => on_sessions(
                    c,
                    session::flow_step(
                        c.sessions,
                        c.remote_max_frame_size,
                        channel,
                        flow,
                        actions,
                    ),
                ),
                PerformativeView::Transfer(transfer) => on_sessions(
                    c,
                    session::transfer_step(c.sessions, channel, transfer, payload, actions),
                ),
                PerformativeView::Disposition(disposition) => on_sessions(
                    c,
                    session::disposition_step(c.sessions, channel, disposition, actions),
                ),
                PerformativeView::Detach(detach) => detach_step(
                    c,
                    channel,
                    detach.handle,
                    actions,
                ),
                PerformativeView::End(_) => end_step(c, channel, actions),
                PerformativeView::Close(_) => close_step(c, actions),
                PerformativeView::Open(_) => ClientStep {
                    client: c,
                    actions,
                    verdict: ClientVerdict::Ended,
                },
            }
        },
    }
}

// ---- requests --------------------------------------------------------------

pub open spec fn beginning() -> BeginView {
    BeginView {
        remote_channel: None,
        next_outgoing_id: 0,
        incoming_window: 2048,
        outgoing_window: 2048,
        handle_max: u32::MAX,
        offered_capabilities: None,
        desired_capabilities: None,
        properties: None,
    }
}

pub open spec fn open_session_step(
    c: ClientView,
    fresh_session: u64,
    ticket: u64,
    actions: Seq<ActionView>,
) -> ClientStep {
    let channel = c.next_channel;
    going_on(
        ClientView {
            sessions: entries::inserted(c.sessions, channel, session::new_session(fresh_session)),
            next_channel: channel.wrapping_add(1),
            next_handles: entries::inserted(c.next_handles, channel, 0),
            pending_begins: entries::inserted(c.pending_begins, channel, ticket),
            ..c
        },
        actions.push(link::written(channel, PerformativeView::Begin(beginning()))),
    )
}

/// The attach that asks for a link.
pub open spec fn attaching(request: AttachRequestView, handle: u32) -> AttachView {
    AttachView {
        name: request.name,
        handle,
        role: request.role,
        snd_settle_mode: request.sender_settle_mode,
        rcv_settle_mode: request.receiver_settle_mode,
        source: request.source,
        target: request.target,
        unsettled: None,
        incomplete_unsettled: false,
        initial_delivery_count: if request.role == Role::Sender {
            Some(0)
        } else {
            None
        },
        max_message_size: Some(usize::MAX as u64),
        offered_capabilities: None,
        desired_capabilities: None,
        properties: None,
    }
}

pub open spec fn requested_link(request: AttachRequestView, incarnation: u64) -> LinkView {
    match request.role {
        Role::Sender => LinkView::Sending(
            link::new_sending(
                request.sender_settle_mode,
                request.receiver_settle_mode,
                incarnation,
            ),
        ),
        Role::Receiver => LinkView::Receiving(
            ReceivingView { incarnation, max_message_size: usize::MAX as u64, partial: None },
        ),
    }
}

pub open spec fn open_link_step(
    c: ClientView,
    channel: u16,
    request: AttachRequestView,
    incarnation: u64,
    ticket: u64,
    actions: Seq<ActionView>,
) -> ClientStep {
    let unknown = ClientVerdict::Failed(
        EngineError::InvalidState(StateFault::AttachOnUnknownSession),
    );
    match entries::looked_up(c.next_handles, channel) {
        None => ClientStep { client: c, actions, verdict: unknown },
        Some(handle) => {
            let counted = ClientView {
                next_handles: entries::inserted(c.next_handles, channel, handle.wrapping_add(1)),
                ..c
            };
            match entries::looked_up(c.sessions, channel) {
                None => ClientStep { client: counted, actions, verdict: unknown },
                Some(s) => going_on(
                    ClientView {
                        sessions: entries::inserted(
                            c.sessions,
                            channel,
                            SessionView {
                                links: entries::inserted(
                                    s.links,
                                    handle,
                                    requested_link(request, incarnation),
                                ),
                                ..s
                            },
                        ),
                        pending_attaches: entries::inserted(
                            c.pending_attaches,
                            request.name,
                            PendingAttach { handle, incarnation, ticket },
                        ),
                        ..counted
                    },
                    actions.push(
                        link::written(
                            channel,
                            PerformativeView::Attach(attaching(request, handle)),
                        ),
                    ),
                ),
            }
        },
    }
}

/// A send that does not start.
pub open spec fn unsent(
    c: ClientView,
    actions: Seq<ActionView>,
    ticket: u64,
    error: EngineError,
) -> ClientStep {
    going_on(
        c,
        actions.push(link::replied(ticket, ReplyView::NotStarted(error))).push(
            link::replied(ticket, ReplyView::Failed(error)),
        ),
    )
}

pub open spec fn send_step(
    c: ClientView,
    channel: u16,
    handle: u32,
    incarnation: u64,
    send: QueuedView,
    actions: Seq<ActionView>,
) -> ClientStep {
    match session::link_at(c.sessions, channel, handle) {
        None => unsent(c, actions, send.ticket, EngineError::RemoteDetached),
        Some(found) => if link::link_incarnation(found) != incarnation {
            unsent(c, actions, send.ticket, EngineError::RemoteDetached)
        } else {
            match found {
                LinkView::Receiving(_) => unsent(
                    c,
                    actions,
                    send.ticket,
                    EngineError::InvalidState(StateFault::SendOnReceiver),
                ),
                LinkView::Sending(sending) => {
                    let step = session::flush_step(
                        session::with_link(
                            c.sessions,
                            channel,
                            handle,
                            LinkView::Sending(
                                SendingView { queued: sending.queued.push(send), ..sending },
                            ),
                        ),
                        c.remote_max_frame_size,
                        channel,
                        handle,
                        actions,
                    );
                    ClientStep {
                        client: ClientView { sessions: step.sessions, ..c },
                        actions: step.actions,
                        verdict: if step.error is None {
                            ClientVerdict::Continue
                        } else {
                            ClientVerdict::Ended
                        },
                    }
                },
            }
        },
    }
}

pub open spec fn settle_step(
    c: ClientView,
    channel: u16,
    handle: u32,
    incarnation: u64,
    delivery_id: u32,
    state: DeliveryStateView,
    ticket: u64,
    actions: Seq<ActionView>,
) -> ClientStep {
    if (session::link_at(c.sessions, channel, handle) matches Some(LinkView::Receiving(receiving))
        && receiving.incarnation == incarnation) {
        going_on(
            c,
            actions.push(
                link::written(channel, engine::settling(Role::Receiver, delivery_id, state, false)),
            ).push(link::replied(ticket, ReplyView::Done)),
        )
    } else {
        going_on(
            c,
            actions.push(link::replied(ticket, ReplyView::Failed(EngineError::RemoteDetached))),
        )
    }
}

/// Detaches a link. The answer waits for the peer's, if the link is still there.
pub open spec fn close_link_step(
    c: ClientView,
    channel: u16,
    handle: u32,
    incarnation: u64,
    ticket: u64,
    actions: Seq<ActionView>,
) -> ClientStep {
    match session::link_at(c.sessions, channel, handle) {
        Some(found) if link::link_incarnation(found) == incarnation => going_on(
            ClientView {
                pending_detaches: entries::inserted(
                    c.pending_detaches,
                    (channel, handle),
                    ticket,
                ),
                ..c
            },
            actions.push(link::written(channel, engine::detaching(handle, None))),
        ),
        _ => going_on(c, actions.push(link::replied(ticket, ReplyView::Done))),
    }
}

pub open spec fn end_session_step(
    c: ClientView,
    channel: u16,
    ticket: u64,
    actions: Seq<ActionView>,
) -> ClientStep {
    going_on(
        ClientView { sessions: entries::removed(c.sessions, channel), ..c },
        ended_links(
            c.sessions,
            channel,
            actions.push(link::written(channel, PerformativeView::End(EndView { error: None }))),
        ).push(link::replied(ticket, ReplyView::Done)),
    )
}

/// What a request does to a connection. A session or a link that it opens gets
/// the incarnation given for it.
pub open spec fn command_step(
    c: ClientView,
    command: ClientCommandView,
    fresh_session: u64,
    fresh_link: u64,
    actions: Seq<ActionView>,
) -> ClientStep {
    match command {
        ClientCommandView::Begin { ticket } => open_session_step(
            c,
            fresh_session,
            ticket,
            actions,
        ),
        ClientCommandView::Attach { channel, request, ticket } => open_link_step(
            c,
            channel,
            request,
            fresh_link,
            ticket,
            actions,
        ),
        ClientCommandView::Send { channel, handle, incarnation, send } => send_step(
            c,
            channel,
            handle,
            incarnation,
            send,
            actions,
        ),
        ClientCommandView::Settle { channel, handle, incarnation, delivery_id, state, ticket } =>
            settle_step(c, channel, handle, incarnation, delivery_id, state, ticket, actions),
        ClientCommandView::Detach { channel, handle, incarnation, ticket } => close_link_step(
            c,
            channel,
            handle,
            incarnation,
            ticket,
            actions,
        ),
        ClientCommandView::End { channel, ticket } => end_session_step(
            c,
            channel,
            ticket,
            actions,
        ),
        ClientCommandView::Close { ticket } => going_on(
            ClientView { closing: Some(ticket), ..c },
            actions.push(link::written(0, closing())),
        ),
    }
}

/// The request whose place a new one takes. Nothing will answer it: whoever waits
/// for it hears that the connection has no more to say.
pub open spec fn displaced_by(c: ClientView, command: ClientCommandView) -> Option<u64> {
    match command {
        ClientCommandView::Begin { .. } => entries::looked_up(c.pending_begins, c.next_channel),
        ClientCommandView::Attach { channel, request, .. } => if entries::looked_up(
            c.next_handles,
            channel,
        ) is Some && entries::looked_up(c.sessions, channel) is Some {
            match entries::looked_up(c.pending_attaches, request.name) {
                Some(pending) => Some(pending.ticket),
                None => None,
            }
        } else {
            None
        },
        ClientCommandView::Detach { channel, handle, incarnation, .. } => if (session::link_at(
            c.sessions,
            channel,
            handle,
        ) matches Some(found) && link::link_incarnation(found) == incarnation) {
            entries::looked_up(c.pending_detaches, (channel, handle))
        } else {
            None
        },
        ClientCommandView::Close { .. } => c.closing,
        _ => None,
    }
}

/// Where a request displaces another one, it is itself the one that waits there.
pub proof fn later_requests_wait_in_the_place_of_earlier_ones(
    c: ClientView,
    command: ClientCommandView,
    fresh_session: u64,
    fresh_link: u64,
    actions: Seq<ActionView>,
)
    requires
        displaced_by(c, command) is Some,
    ensures
        ({
            let after = command_step(c, command, fresh_session, fresh_link, actions).client;
            match command {
                ClientCommandView::Begin { ticket } => entries::looked_up(
                    after.pending_begins,
                    c.next_channel,
                ) == Some(ticket),
                ClientCommandView::Attach { request, ticket, .. } => entries::looked_up(
                    after.pending_attaches,
                    request.name,
                ) matches Some(pending) && pending.ticket == ticket,
                ClientCommandView::Detach { channel, handle, ticket, .. } => entries::looked_up(
                    after.pending_detaches,
                    (channel, handle),
                ) == Some(ticket),
                ClientCommandView::Close { ticket } => after.closing == Some(ticket),
                _ => false,
            }
        }),
{
    match command {
        ClientCommandView::Begin { ticket } => {
            entries::insertion_is_looked_up(
                c.pending_begins,
                c.next_channel,
                ticket,
                c.next_channel,
            );
        },
        ClientCommandView::Attach { channel, request, ticket } => {
            let handle = entries::looked_up(c.next_handles, channel)->Some_0;
            entries::insertion_is_looked_up(
                c.pending_attaches,
                request.name,
                PendingAttach { handle, incarnation: fresh_link, ticket },
                request.name,
            );
        },
        ClientCommandView::Detach { channel, handle, ticket, .. } => {
            entries::insertion_is_looked_up(
                c.pending_detaches,
                (channel, handle),
                ticket,
                (channel, handle),
            );
        },
        _ => {},
    }
}

// ---- the end ---------------------------------------------------------------

/// Fails the requests whose tickets are given, from `i` on.
pub open spec fn failed_tickets<K>(waiting: Seq<(K, u64)>, i: int, actions: Seq<ActionView>) -> Seq<
    ActionView,
>
    decreases waiting.len() - i,
{
    if i < 0 || i >= waiting.len() {
        actions
    } else {
        failed_tickets(
            waiting,
            i + 1,
            actions.push(link::replied(waiting[i].1, ReplyView::Failed(EngineError::Stopped))),
        )
    }
}

pub open spec fn failed_attaches(
    waiting: Seq<(Seq<char>, PendingAttach)>,
    i: int,
    actions: Seq<ActionView>,
) -> Seq<ActionView>
    decreases waiting.len() - i,
{
    if i < 0 || i >= waiting.len() {
        actions
    } else {
        failed_attaches(
            waiting,
            i + 1,
            actions.push(
                link::replied(waiting[i].1.ticket, ReplyView::Failed(EngineError::Stopped)),
            ),
        )
    }
}

/// What is left to do when a connection ends: every link is stopped, and every
/// request that waits for the peer fails.
pub open spec fn stopping(c: ClientView, actions: Seq<ActionView>) -> Seq<ActionView> {
    engine::told(
        failed_tickets(
            c.pending_detaches,
            0,
            failed_attaches(
                c.pending_attaches,
                0,
                failed_tickets(
                    c.pending_begins,
                    0,
                    session::stopped_sessions(c.sessions, 0, actions),
                ),
            ),
        ),
        c.closing,
        ReplyView::Failed(EngineError::RemoteClosed),
    )
}

#[verifier::loop_isolation(false)]
fn fail_tickets<K: entries::Key>(waiting: &OrderedMap<K, u64>, actions: &mut Vec<Action>)
    ensures
        final(actions).deep_view() == failed_tickets(
            waiting.deep_view(),
            0,
            old(actions).deep_view(),
        ),
{
    let ghost whole = failed_tickets(waiting.deep_view(), 0, actions.deep_view());
    let n: usize = waiting.len();
    let mut i: usize = 0;
    while i < n
        invariant
            i <= n == waiting.deep_view().len(),
            failed_tickets(waiting.deep_view(), i as int, actions.deep_view()) == whole,
        decreases n - i,
    {
        let (_, ticket) = waiting.entry(i);
        refuse(actions, *ticket, EngineError::Stopped);
        i = i + 1;
    }
}

#[verifier::loop_isolation(false)]
fn fail_attaches(waiting: &OrderedMap<String, PendingAttach>, actions: &mut Vec<Action>)
    ensures
        final(actions).deep_view() == failed_attaches(
            waiting.deep_view(),
            0,
            old(actions).deep_view(),
        ),
{
    let ghost whole = failed_attaches(waiting.deep_view(), 0, actions.deep_view());
    let n: usize = waiting.len();
    let mut i: usize = 0;
    while i < n
        invariant
            i <= n == waiting.deep_view().len(),
            failed_attaches(waiting.deep_view(), i as int, actions.deep_view()) == whole,
        decreases n - i,
    {
        let (_, pending) = waiting.entry(i);
        refuse(actions, pending.ticket, EngineError::Stopped);
        i = i + 1;
    }
}

fn verdict_on(done: Result<(), EngineError>) -> (verdict: ClientVerdict)
    ensures
        verdict == match done {
            Ok(_) => ClientVerdict::Continue,
            Err(error) => ClientVerdict::Failed(error),
        },
{
    match done {
        Ok(_) => ClientVerdict::Continue,
        Err(error) => ClientVerdict::Failed(error),
    }
}

impl Client {
    pub fn new(remote_max_frame_size: u32) -> (client: Client)
        ensures
            client.deep_view() == (ClientView {
                sessions: Seq::empty(),
                next_channel: 0,
                next_handles: Seq::empty(),
                pending_begins: Seq::empty(),
                pending_attaches: Seq::empty(),
                pending_detaches: Seq::empty(),
                closing: None,
                remote_max_frame_size,
            }),
    {
        Client {
            sessions: OrderedMap::new(),
            next_channel: 0,
            next_handles: OrderedMap::new(),
            pending_begins: OrderedMap::new(),
            pending_attaches: OrderedMap::new(),
            pending_detaches: OrderedMap::new(),
            closing: None,
            remote_max_frame_size,
        }
    }

    fn take_begin(&mut self, channel: u16, actions: &mut Vec<Action>)
        ensures
            client_ran(
                ClientVerdict::Continue,
                final(self).deep_view(),
                final(actions).deep_view(),
                begin_step(old(self).deep_view(), channel, old(actions).deep_view()),
            ),
    {
        if let Some(ticket) = self.pending_begins.remove(&channel) {
            answer(actions, ticket, Reply::Begun(channel));
        }
    }

    fn take_attach(&mut self, channel: u16, attach: Attach, actions: &mut Vec<Action>)
        ensures
            client_ran(
                ClientVerdict::Continue,
                final(self).deep_view(),
                final(actions).deep_view(),
                attach_step(
                    old(self).deep_view(),
                    channel,
                    attach.deep_view(),
                    old(actions).deep_view(),
                ),
            ),
    {
        if let Some(pending) = self.pending_attaches.remove(&attach.name) {
            match attach.role {
                Role::Sender => send_frame(
                    actions,
                    channel,
                    Performative::Flow(grant_flow(pending.handle, 0)),
                ),
                Role::Receiver => {},
            }
            answer(
                actions,
                pending.ticket,
                Reply::Opened { handle: pending.handle, incarnation: pending.incarnation, attach },
            );
        }
    }

    fn take_detach(&mut self, channel: u16, handle: u32, actions: &mut Vec<Action>)
        ensures
            client_ran(
                ClientVerdict::Continue,
                final(self).deep_view(),
                final(actions).deep_view(),
                detach_step(old(self).deep_view(), channel, handle, old(actions).deep_view()),
            ),
    {
        let own = self.pending_detaches.remove(&(channel, handle));
        proof {
            entries::reinsertion_changes_nothing(self.sessions.deep_view(), channel);
        }
        if let Some(session) = self.sessions.get_mut(&channel) {
            if let Some(gone) = session.links.remove(&handle) {
                stop_link(&gone, actions);
            }
        }
        match own {
            Some(ticket) => answer(actions, ticket, Reply::Done),
            None => send_frame(actions, channel, detach_frame(handle, None)),
        }
    }

    fn end_links(&mut self, channel: u16, actions: &mut Vec<Action>)
        ensures
            client_ran(
                ClientVerdict::Continue,
                final(self).deep_view(),
                final(actions).deep_view(),
                end_step(old(self).deep_view(), channel, old(actions).deep_view()),
            ),
    {
        if let Some(ended) = self.sessions.remove(&channel) {
            stop_links(&ended, actions);
        }
    }

    /// Takes a frame.
    pub fn handle_frame(&mut self, frame: Frame, actions: &mut Vec<Action>) -> (verdict:
        ClientVerdict)
        ensures
            client_ran(
                verdict,
                final(self).deep_view(),
                final(actions).deep_view(),
                frame_step(old(self).deep_view(), frame.deep_view(), old(actions).deep_view()),
            ),
    {
        let (channel, performative, payload): (u16, Option<Performative>, Vec<u8>) = match frame {
            Frame::Sasl(_) => return ClientVerdict::Ended,
            Frame::Amqp { channel, performative, payload } => (channel, performative, payload),
        };
        let performative = match performative {
            Some(performative) => performative,
            None => return ClientVerdict::Continue,
        };
        let max: u32 = self.remote_max_frame_size;
        match performative {
            Performative::Begin(_) => {
                self.take_begin(channel, actions);
                ClientVerdict::Continue
            },
            Performative::Attach(attach) => {
                self.take_attach(channel, *attach, actions);
                ClientVerdict::Continue
            },
            Performative::Flow(flow) => verdict_on(
                apply_flow(&mut self.sessions, max, channel, flow, actions),
            ),
            Performative::Transfer(transfer) => verdict_on(
                receive_transfer(&mut self.sessions, channel, transfer, payload, actions),
            ),
            Performative::Disposition(disposition) => {
                apply_disposition(&mut self.sessions, channel, disposition, actions);
                ClientVerdict::Continue
            },
            Performative::Detach(detach) => {
                self.take_detach(channel, detach.handle, actions);
                ClientVerdict::Continue
            },
            Performative::End(_) => {
                self.end_links(channel, actions);
                ClientVerdict::Continue
            },
            Performative::Close(_) => {
                match self.closing {
                    Some(ticket) => answer(actions, ticket, Reply::Done),
                    None => send_frame(actions, 0, Performative::Close(Close { error: None })),
                }
                self.closing = None;
                ClientVerdict::Ended
            },
            Performative::Open(_) => ClientVerdict::Ended,
        }
    }

    fn open_session(&mut self, fresh_session: u64, ticket: u64, actions: &mut Vec<Action>)
        ensures
            client_ran(
                ClientVerdict::Continue,
                final(self).deep_view(),
                final(actions).deep_view(),
                open_session_step(
                    old(self).deep_view(),
                    fresh_session,
                    ticket,
                    old(actions).deep_view(),
                ),
            ),
    {
        let channel: u16 = self.next_channel;
        self.next_channel = channel.wrapping_add(1);
        self.sessions.insert(channel, SessionState::new(fresh_session));
        self.next_handles.insert(channel, 0);
        self.pending_begins.insert(channel, ticket);
        send_frame(actions, channel, Performative::Begin(Begin::default()));
    }

    fn open_link(
        &mut self,
        channel: u16,
        request: AttachRequest,
        incarnation: u64,
        ticket: u64,
        actions: &mut Vec<Action>,
    ) -> (verdict: ClientVerdict)
        ensures
            client_ran(
                verdict,
                final(self).deep_view(),
                final(actions).deep_view(),
                open_link_step(
                    old(self).deep_view(),
                    channel,
                    request.deep_view(),
                    incarnation,
                    ticket,
                    old(actions).deep_view(),
                ),
            ),
    {
        let handle: u32 = match self.next_handles.get_mut(&channel) {
            None => return ClientVerdict::Failed(
                EngineError::InvalidState(StateFault::AttachOnUnknownSession),
            ),
            Some(next) => {
                let handle: u32 = *next;
                *next = handle.wrapping_add(1);
                handle
            },
        };
        let session = match self.sessions.get_mut(&channel) {
            Some(session) => session,
            None => return ClientVerdict::Failed(
                EngineError::InvalidState(StateFault::AttachOnUnknownSession),
            ),
        };
        let sends: bool = match request.role {
            Role::Sender => true,
            Role::Receiver => false,
        };
        if sends {
            session.links.insert(
                handle,
                LinkState::Sending(
                    SendingLink::new(
                        request.sender_settle_mode,
                        request.receiver_settle_mode,
                        incarnation,
                    ),
                ),
            );
        } else {
            session.links.insert(
                handle,
                LinkState::Receiving(
                    ReceivingLink {
                        incarnation,
                        max_message_size: usize::MAX as u64,
                        partial: None,
                    },
                ),
            );
        }
        let name = request.name.clone();
        let attach = Attach {
            name: request.name,
            handle,
            role: request.role,
            snd_settle_mode: request.sender_settle_mode,
            rcv_settle_mode: request.receiver_settle_mode,
            source: request.source,
            target: request.target,
            unsettled: None,
            incomplete_unsettled: false,
            initial_delivery_count: if sends {
                Some(0)
            } else {
                None
            },
            max_message_size: Some(usize::MAX as u64),
            offered_capabilities: None,
            desired_capabilities: None,
            properties: None,
        };
        self.pending_attaches.insert(name, PendingAttach { handle, incarnation, ticket });
        send_frame(actions, channel, Performative::Attach(Box::new(attach)));
        ClientVerdict::Continue
    }

    fn send(
        &mut self,
        channel: u16,
        handle: u32,
        incarnation: u64,
        send: QueuedSend,
        actions: &mut Vec<Action>,
    ) -> (verdict: ClientVerdict)
        ensures
            client_ran(
                verdict,
                final(self).deep_view(),
                final(actions).deep_view(),
                send_step(
                    old(self).deep_view(),
                    channel,
                    handle,
                    incarnation,
                    send.deep_view(),
                    old(actions).deep_view(),
                ),
            ),
    {
        let ticket: u64 = send.ticket;
        proof {
            session::same_link_changes_nothing(self.sessions.deep_view(), channel, handle);
            entries::reinsertion_changes_nothing(self.sessions.deep_view(), channel);
        }
        let session = match self.sessions.get_mut(&channel) {
            Some(session) => session,
            None => {
                refuse_send(actions, ticket, EngineError::RemoteDetached);
                return ClientVerdict::Continue;
            },
        };
        let found = match session.links.get_mut(&handle) {
            Some(found) => found,
            None => {
                refuse_send(actions, ticket, EngineError::RemoteDetached);
                return ClientVerdict::Continue;
            },
        };
        if found.incarnation() != incarnation {
            refuse_send(actions, ticket, EngineError::RemoteDetached);
            return ClientVerdict::Continue;
        }
        let sending = match found {
            LinkState::Sending(sending) => sending,
            LinkState::Receiving(_) => {
                refuse_send(actions, ticket, EngineError::InvalidState(StateFault::SendOnReceiver));
                return ClientVerdict::Continue;
            },
        };
        let ghost queued = sending.queued.deep_view();
        let ghost last = send.deep_view();
        sending.queued.push(send);
        proof {
            assert(sending.queued.deep_view() =~= queued.push(last));
        }
        let max: u32 = self.remote_max_frame_size;
        match flush_link(&mut self.sessions, max, channel, handle, actions) {
            Ok(_) => ClientVerdict::Continue,
            Err(_) => ClientVerdict::Ended,
        }
    }

    fn settle(
        &self,
        channel: u16,
        handle: u32,
        incarnation: u64,
        delivery_id: u32,
        state: DeliveryState,
        ticket: u64,
        actions: &mut Vec<Action>,
    )
        ensures
            client_ran(
                ClientVerdict::Continue,
                self.deep_view(),
                final(actions).deep_view(),
                settle_step(
                    self.deep_view(),
                    channel,
                    handle,
                    incarnation,
                    delivery_id,
                    state.deep_view(),
                    ticket,
                    old(actions).deep_view(),
                ),
            ),
    {
        let current: bool = match self.sessions.get(&channel) {
            None => false,
            Some(session) => match session.links.get(&handle) {
                Some(LinkState::Receiving(receiving)) => receiving.incarnation == incarnation,
                _ => false,
            },
        };
        if !current {
            refuse(actions, ticket, EngineError::RemoteDetached);
            return ;
        }
        send_frame(actions, channel, settlement(Role::Receiver, delivery_id, state, false));
        answer(actions, ticket, Reply::Done);
    }

    fn close_link(
        &mut self,
        channel: u16,
        handle: u32,
        incarnation: u64,
        ticket: u64,
        actions: &mut Vec<Action>,
    )
        ensures
            client_ran(
                ClientVerdict::Continue,
                final(self).deep_view(),
                final(actions).deep_view(),
                close_link_step(
                    old(self).deep_view(),
                    channel,
                    handle,
                    incarnation,
                    ticket,
                    old(actions).deep_view(),
                ),
            ),
    {
        let current: bool = match self.sessions.get(&channel) {
            None => false,
            Some(session) => match session.links.get(&handle) {
                Some(found) => found.incarnation() == incarnation,
                None => false,
            },
        };
        if current {
            self.pending_detaches.insert((channel, handle), ticket);
            send_frame(actions, channel, detach_frame(handle, None));
        } else {
            answer(actions, ticket, Reply::Done);
        }
    }

    /// The request whose place `command` is about to take.
    pub fn displaced(&self, command: &ClientCommand) -> (ticket: Option<u64>)
        ensures
            ticket == displaced_by(self.deep_view(), command.deep_view()),
    {
        match command {
            ClientCommand::Begin { .. } => match self.pending_begins.get(&self.next_channel) {
                Some(ticket) => Some(*ticket),
                None => None,
            },
            ClientCommand::Attach { channel, request, .. } => {
                if !self.next_handles.contains(channel) || !self.sessions.contains(channel) {
                    return None;
                }
                match self.pending_attaches.get(&request.name) {
                    Some(pending) => Some(pending.ticket),
                    None => None,
                }
            },
            ClientCommand::Detach { channel, handle, incarnation, .. } => {
                let current: bool = match self.sessions.get(channel) {
                    None => false,
                    Some(session) => match session.links.get(handle) {
                        Some(found) => found.incarnation() == *incarnation,
                        None => false,
                    },
                };
                if !current {
                    return None;
                }
                match self.pending_detaches.get(&(*channel, *handle)) {
                    Some(ticket) => Some(*ticket),
                    None => None,
                }
            },
            ClientCommand::Close { .. } => self.closing,
            _ => None,
        }
    }

    /// Takes a request.
    pub fn handle_command(
        &mut self,
        command: ClientCommand,
        fresh_session: u64,
        fresh_link: u64,
        actions: &mut Vec<Action>,
    ) -> (verdict: ClientVerdict)
        ensures
            client_ran(
                verdict,
                final(self).deep_view(),
                final(actions).deep_view(),
                command_step(
                    old(self).deep_view(),
                    command.deep_view(),
                    fresh_session,
                    fresh_link,
                    old(actions).deep_view(),
                ),
            ),
    {
        match command {
            ClientCommand::Begin { ticket } => {
                self.open_session(fresh_session, ticket, actions);
                ClientVerdict::Continue
            },
            ClientCommand::Attach { channel, request, ticket } => self.open_link(
                channel,
                request,
                fresh_link,
                ticket,
                actions,
            ),
            ClientCommand::Send {
                channel,
                handle,
                incarnation,
                message,
                message_format,
                delivery_tag,
                ticket,
            } => self.send(
                channel,
                handle,
                incarnation,
                QueuedSend { message, message_format, delivery_tag, reservation: None, ticket },
                actions,
            ),
            ClientCommand::Settle { channel, handle, incarnation, delivery_id, state, ticket } => {
                self.settle(channel, handle, incarnation, delivery_id, state, ticket, actions);
                ClientVerdict::Continue
            },
            ClientCommand::Detach { channel, handle, incarnation, ticket } => {
                self.close_link(channel, handle, incarnation, ticket, actions);
                ClientVerdict::Continue
            },
            ClientCommand::End { channel, ticket } => {
                send_frame(actions, channel, Performative::End(End { error: None }));
                self.end_links(channel, actions);
                answer(actions, ticket, Reply::Done);
                ClientVerdict::Continue
            },
            ClientCommand::Close { ticket } => {
                self.closing = Some(ticket);
                send_frame(actions, 0, Performative::Close(Close { error: None }));
                ClientVerdict::Continue
            },
        }
    }

    /// Ends a connection.
    pub fn stop(&self, actions: &mut Vec<Action>)
        ensures
            final(actions).deep_view() == stopping(self.deep_view(), old(actions).deep_view()),
    {
        stop_sessions(&self.sessions, actions);
        fail_tickets(&self.pending_begins, actions);
        fail_attaches(&self.pending_attaches, actions);
        fail_tickets(&self.pending_detaches, actions);
        tell(actions, self.closing, Reply::Failed(EngineError::RemoteClosed));
    }
}

} // verus!
