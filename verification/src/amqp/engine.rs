//! The serving end of a connection: what frames and requests do to it.

use vstd::prelude::*;

use crate::amqp::entries;
use crate::amqp::entries::OrderedMap;
use crate::amqp::fields::Copied;
use crate::amqp::frame::{Frame, FrameView};
use crate::amqp::link;
use crate::amqp::link::{
    acknowledge_drain, act, answer, complete_zero_credit_drain, forget_reservation,
    holds_reservation, publish_credit, send_frame, stop_link, Action, ActionView,
    CreditReservationIdentity, DrainRequest, EngineError, LinkState, LinkView, QueuedSend,
    QueuedView, ReceivingLink, ReceivingView, Reply, ReplyView, SendingLink, SendingView,
    StateFault, LINK_CREDIT, SESSION_WINDOW,
};
use crate::amqp::session;
use crate::amqp::session::{
    apply_disposition, apply_flow, flush_link, receive_transfer, stop_links, stop_sessions,
    SessionState, SessionView, Stepped,
};
use crate::amqp::types;
use crate::amqp::types::{
    Attach, AttachView, Begin, BeginView, Close, CloseView, DeliveryState, DeliveryStateView,
    DeliveryTag, Detach, DetachView, Disposition, DispositionView, End, EndView, Error, ErrorView,
    Fields, FieldsView, Flow, FlowView, Message, MessageView, Performative, PerformativeView, Role,
};

verus! {

/// What an application asks of a connection. The answer to each bears its ticket.
#[derive(Debug, PartialEq, Eq)]
pub enum Command {
    AcceptSession { channel: u16, incarnation: u64, ticket: u64 },
    AcceptLink {
        channel: u16,
        session_incarnation: u64,
        incarnation: u64,
        attach: Attach,
        max_message_size: u64,
        properties: Option<Fields>,
        ticket: u64,
    },
    Send {
        channel: u16,
        handle: u32,
        incarnation: u64,
        message: Message,
        message_format: u32,
        delivery_tag: DeliveryTag,
        reservation: Option<CreditReservationIdentity>,
        ticket: u64,
    },
    ReserveCredit { channel: u16, handle: u32, incarnation: u64, ticket: u64 },
    /// A reservation that was dropped is released without a ticket.
    ReleaseCredit { reservation: CreditReservationIdentity, ticket: Option<u64> },
    Confirm {
        channel: u16,
        handle: u32,
        incarnation: u64,
        delivery_id: u32,
        state: DeliveryState,
        batchable: bool,
        ticket: u64,
    },
    Drained { request: DrainRequest, ticket: u64 },
    Settle {
        channel: u16,
        handle: u32,
        incarnation: u64,
        delivery_id: u32,
        state: DeliveryState,
        ticket: u64,
    },
    Detach { channel: u16, handle: u32, incarnation: u64, error: Option<Error>, ticket: u64 },
    Close { error: Option<Error>, ticket: u64 },
}

pub enum CommandView {
    AcceptSession { channel: u16, incarnation: u64, ticket: u64 },
    AcceptLink {
        channel: u16,
        session_incarnation: u64,
        incarnation: u64,
        attach: AttachView,
        max_message_size: u64,
        properties: Option<FieldsView>,
        ticket: u64,
    },
    Send {
        channel: u16,
        handle: u32,
        incarnation: u64,
        message: MessageView,
        message_format: u32,
        delivery_tag: Seq<u8>,
        reservation: Option<CreditReservationIdentity>,
        ticket: u64,
    },
    ReserveCredit { channel: u16, handle: u32, incarnation: u64, ticket: u64 },
    ReleaseCredit { reservation: CreditReservationIdentity, ticket: Option<u64> },
    Confirm {
        channel: u16,
        handle: u32,
        incarnation: u64,
        delivery_id: u32,
        state: DeliveryStateView,
        batchable: bool,
        ticket: u64,
    },
    Drained { request: DrainRequest, ticket: u64 },
    Settle {
        channel: u16,
        handle: u32,
        incarnation: u64,
        delivery_id: u32,
        state: DeliveryStateView,
        ticket: u64,
    },
    Detach { channel: u16, handle: u32, incarnation: u64, error: Option<ErrorView>, ticket: u64 },
    Close { error: Option<ErrorView>, ticket: u64 },
}

impl DeepView for Command {
    type V = CommandView;

    open spec fn deep_view(&self) -> CommandView {
        match self {
            Command::AcceptSession { channel, incarnation, ticket } => CommandView::AcceptSession {
                channel: *channel,
                incarnation: *incarnation,
                ticket: *ticket,
            },
            Command::AcceptLink {
                channel,
                session_incarnation,
                incarnation,
                attach,
                max_message_size,
                properties,
                ticket,
            } => CommandView::AcceptLink {
                channel: *channel,
                session_incarnation: *session_incarnation,
                incarnation: *incarnation,
                attach: attach.deep_view(),
                max_message_size: *max_message_size,
                properties: properties.deep_view(),
                ticket: *ticket,
            },
            Command::Send {
                channel,
                handle,
                incarnation,
                message,
                message_format,
                delivery_tag,
                reservation,
                ticket,
            } => CommandView::Send {
                channel: *channel,
                handle: *handle,
                incarnation: *incarnation,
                message: message.deep_view(),
                message_format: *message_format,
                delivery_tag: delivery_tag@,
                reservation: *reservation,
                ticket: *ticket,
            },
            Command::ReserveCredit { channel, handle, incarnation, ticket } =>
                CommandView::ReserveCredit {
                channel: *channel,
                handle: *handle,
                incarnation: *incarnation,
                ticket: *ticket,
            },
            Command::ReleaseCredit { reservation, ticket } => CommandView::ReleaseCredit {
                reservation: *reservation,
                ticket: *ticket,
            },
            Command::Confirm {
                channel,
                handle,
                incarnation,
                delivery_id,
                state,
                batchable,
                ticket,
            } => CommandView::Confirm {
                channel: *channel,
                handle: *handle,
                incarnation: *incarnation,
                delivery_id: *delivery_id,
                state: state.deep_view(),
                batchable: *batchable,
                ticket: *ticket,
            },
            Command::Drained { request, ticket } => CommandView::Drained {
                request: *request,
                ticket: *ticket,
            },
            Command::Settle { channel, handle, incarnation, delivery_id, state, ticket } =>
                CommandView::Settle {
                channel: *channel,
                handle: *handle,
                incarnation: *incarnation,
                delivery_id: *delivery_id,
                state: state.deep_view(),
                ticket: *ticket,
            },
            Command::Detach { channel, handle, incarnation, error, ticket } =>
                CommandView::Detach {
                channel: *channel,
                handle: *handle,
                incarnation: *incarnation,
                error: error.deep_view(),
                ticket: *ticket,
            },
            Command::Close { error, ticket } => CommandView::Close {
                error: error.deep_view(),
                ticket: *ticket,
            },
        }
    }
}

/// What becomes of the connection.
#[derive(Clone, Copy, Debug, PartialEq, Eq, Structural)]
pub enum Verdict {
    Continue,
    /// The peer closed it.
    Closed,
    /// This end closed it: the request with this ticket is answered when the peer
    /// has closed it too.
    Closing(u64),
    Failed(EngineError),
}

/// The serving end of a connection.
#[derive(Debug, PartialEq, Eq)]
pub struct Engine {
    pub sessions: OrderedMap<u16, SessionState>,
    /// The sessions that the peer began and nobody has accepted.
    pub pending_sessions: OrderedMap<u16, u64>,
    pub remote_max_frame_size: u32,
}

pub struct EngineView {
    pub sessions: Seq<(u16, SessionView)>,
    pub pending_sessions: Seq<(u16, u64)>,
    pub remote_max_frame_size: u32,
}

impl DeepView for Engine {
    type V = EngineView;

    open spec fn deep_view(&self) -> EngineView {
        EngineView {
            sessions: self.sessions.deep_view(),
            pending_sessions: self.pending_sessions.deep_view(),
            remote_max_frame_size: self.remote_max_frame_size,
        }
    }
}

pub struct EngineStep {
    pub engine: EngineView,
    pub actions: Seq<ActionView>,
    pub verdict: Verdict,
}

pub open spec fn engine_ran(
    verdict: Verdict,
    engine: EngineView,
    actions: Seq<ActionView>,
    step: EngineStep,
) -> bool {
    engine == step.engine && actions == step.actions && verdict == step.verdict
}

pub open spec fn verdict_of(error: Option<EngineError>) -> Verdict {
    match error {
        None => Verdict::Continue,
        Some(error) => Verdict::Failed(error),
    }
}

fn verdict_on(done: Result<(), EngineError>) -> (verdict: Verdict)
    ensures
        verdict == match done {
            Ok(_) => Verdict::Continue,
            Err(error) => Verdict::Failed(error),
        },
{
    match done {
        Ok(_) => Verdict::Continue,
        Err(error) => Verdict::Failed(error),
    }
}

pub open spec fn going_on(
    e: EngineView,
    sessions: Seq<(u16, SessionView)>,
    actions: Seq<ActionView>,
) -> EngineStep {
    EngineStep {
        engine: EngineView { sessions, ..e },
        actions,
        verdict: Verdict::Continue,
    }
}

pub open spec fn failing(e: EngineView, actions: Seq<ActionView>, fault: StateFault) -> EngineStep {
    EngineStep {
        engine: e,
        actions,
        verdict: Verdict::Failed(EngineError::InvalidState(fault)),
    }
}

/// A step on the sessions alone.
pub open spec fn on_sessions(e: EngineView, step: Stepped) -> EngineStep {
    EngineStep {
        engine: EngineView { sessions: step.sessions, ..e },
        actions: step.actions,
        verdict: verdict_of(step.error),
    }
}

/// A request that is answered with an error, and changes nothing.
pub open spec fn refused(
    e: EngineView,
    actions: Seq<ActionView>,
    ticket: u64,
    error: EngineError,
) -> EngineStep {
    EngineStep {
        engine: e,
        actions: actions.push(link::replied(ticket, ReplyView::Failed(error))),
        verdict: Verdict::Continue,
    }
}

// ---- frames ----------------------------------------------------------------

pub open spec fn detaching(handle: u32, error: Option<ErrorView>) -> PerformativeView {
    PerformativeView::Detach(DetachView { handle, closed: true, error })
}

pub open spec fn begin_step(
    e: EngineView,
    channel: u16,
    begin: BeginView,
    incarnation: u64,
    actions: Seq<ActionView>,
) -> EngineStep {
    if entries::looked_up(e.sessions, channel) is Some || entries::looked_up(
        e.pending_sessions,
        channel,
    ) is Some {
        failing(e, actions, StateFault::DuplicateChannel)
    } else {
        EngineStep {
            engine: EngineView {
                pending_sessions: entries::inserted(e.pending_sessions, channel, incarnation),
                ..e
            },
            actions: actions.push(ActionView::Begun { channel, incarnation, begin }),
            verdict: Verdict::Continue,
        }
    }
}

pub open spec fn attach_step(
    e: EngineView,
    channel: u16,
    attach: AttachView,
    incarnation: u64,
    actions: Seq<ActionView>,
) -> EngineStep {
    match entries::looked_up(e.sessions, channel) {
        None => failing(e, actions, StateFault::AttachOnUnknownSession),
        Some(s) => if entries::looked_up(s.links, attach.handle) is Some || entries::looked_up(
            s.pending_attaches,
            attach.handle,
        ) is Some {
            failing(e, actions, StateFault::HandleInUse)
        } else {
            let waiting = EngineView {
                sessions: entries::inserted(
                    e.sessions,
                    channel,
                    SessionView {
                        pending_attaches: entries::inserted(
                            s.pending_attaches,
                            attach.handle,
                            incarnation,
                        ),
                        ..s
                    },
                ),
                ..e
            };
            if s.accepts_links {
                EngineStep {
                    engine: waiting,
                    actions: actions.push(
                        ActionView::Attached { session: s.incarnation, incarnation, attach },
                    ),
                    verdict: Verdict::Continue,
                }
            } else {
                failing(waiting, actions, StateFault::NoRemoteLinks)
            }
        },
    }
}

/// Takes a detach. It is answered for a link that is attached or that nobody has
/// accepted, and ignored for any other.
pub open spec fn detach_step(
    e: EngineView,
    channel: u16,
    handle: u32,
    actions: Seq<ActionView>,
) -> EngineStep {
    match entries::looked_up(e.sessions, channel) {
        None => going_on(e, e.sessions, actions),
        Some(s) => match entries::looked_up(s.links, handle) {
            Some(gone) => going_on(
                e,
                entries::inserted(
                    e.sessions,
                    channel,
                    SessionView { links: entries::removed(s.links, handle), ..s },
                ),
                link::stopped(gone, actions).push(link::written(channel, detaching(handle, None))),
            ),
            None => if entries::looked_up(s.pending_attaches, handle) is Some {
                going_on(
                    e,
                    entries::inserted(
                        e.sessions,
                        channel,
                        SessionView {
                            pending_attaches: entries::removed(s.pending_attaches, handle),
                            pending_flows: entries::removed(s.pending_flows, handle),
                            ..s
                        },
                    ),
                    actions.push(link::written(channel, detaching(handle, None))),
                )
            } else {
                going_on(e, e.sessions, actions)
            },
        },
    }
}

pub open spec fn end_step(e: EngineView, channel: u16, actions: Seq<ActionView>) -> EngineStep {
    let told = match entries::looked_up(e.sessions, channel) {
        Some(s) => session::stopped_links(s.links, 0, actions),
        None => actions,
    };
    EngineStep {
        engine: EngineView {
            sessions: entries::removed(e.sessions, channel),
            pending_sessions: entries::removed(e.pending_sessions, channel),
            ..e
        },
        actions: told.push(
            link::written(channel, PerformativeView::End(EndView { error: None })),
        ),
        verdict: Verdict::Continue,
    }
}

/// What a frame does to a connection. A session that it begins, or a link that it
/// attaches, gets the incarnation given for it.
pub open spec fn frame_step(
    e: EngineView,
    frame: FrameView,
    fresh_session: u64,
    fresh_link: u64,
    actions: Seq<ActionView>,
) -> EngineStep {
    match frame {
        FrameView::Sasl(_) => failing(e, actions, StateFault::SaslAfterOpen),
        FrameView::Amqp { channel, performative: None, payload } => going_on(
            e,
            e.sessions,
            actions,
        ),
        FrameView::Amqp { channel, performative: Some(performative), payload } => {
            match performative {
                PerformativeView::Begin(begin) => begin_step(
                    e,
                    channel,
                    begin,
                    fresh_session,
                    actions,
                ),
                PerformativeView::Attach(attach) => attach_step(
                    e,
                    channel,
                    attach,
                    fresh_link,
                    actions,
                ),
                PerformativeView::Flow(flow) => on_sessions(
                    e,
                    session::flow_step(
                        e.sessions,
                        e.remote_max_frame_size,
                        channel,
                        flow,
                        actions,
                    ),
                ),
                PerformativeView::Transfer(transfer) => on_sessions(
                    e,
                    session::transfer_step(e.sessions, channel, transfer, payload, actions),
                ),
                PerformativeView::Disposition(disposition) => on_sessions(
                    e,
                    session::disposition_step(e.sessions, channel, disposition, actions),
                ),
                PerformativeView::Detach(detach) => detach_step(
                    e,
                    channel,
                    detach.handle,
                    actions,
                ),
                PerformativeView::End(_) => end_step(e, channel, actions),
                PerformativeView::Close(_) => EngineStep {
                    engine: e,
                    actions: actions.push(
                        link::written(0, PerformativeView::Close(CloseView { error: None })),
                    ),
                    verdict: Verdict::Closed,
                },
                PerformativeView::Open(_) => failing(e, actions, StateFault::DuplicateOpen),
            }
        },
    }
}

pub(crate) fn detach_frame(handle: u32, error: Option<Error>) -> (performative: Performative)
    ensures
        performative.deep_view() == detaching(handle, error.deep_view()),
{
    Performative::Detach(Detach { handle, closed: true, error })
}

impl Engine {
    pub fn new(remote_max_frame_size: u32) -> (engine: Engine)
        ensures
            engine.deep_view() == (EngineView {
                sessions: Seq::empty(),
                pending_sessions: Seq::empty(),
                remote_max_frame_size,
            }),
    {
        Engine {
            sessions: OrderedMap::new(),
            pending_sessions: OrderedMap::new(),
            remote_max_frame_size,
        }
    }

    fn take_begin(
        &mut self,
        channel: u16,
        begin: Begin,
        incarnation: u64,
        actions: &mut Vec<Action>,
    ) -> (verdict: Verdict)
        ensures
            engine_ran(
                verdict,
                final(self).deep_view(),
                final(actions).deep_view(),
                begin_step(
                    old(self).deep_view(),
                    channel,
                    begin.deep_view(),
                    incarnation,
                    old(actions).deep_view(),
                ),
            ),
    {
        if self.sessions.contains(&channel) || self.pending_sessions.contains(&channel) {
            return Verdict::Failed(EngineError::InvalidState(StateFault::DuplicateChannel));
        }
        self.pending_sessions.insert(channel, incarnation);
        act(actions, Action::Begun { channel, incarnation, begin });
        Verdict::Continue
    }

    fn take_attach(
        &mut self,
        channel: u16,
        attach: Attach,
        incarnation: u64,
        actions: &mut Vec<Action>,
    ) -> (verdict: Verdict)
        ensures
            engine_ran(
                verdict,
                final(self).deep_view(),
                final(actions).deep_view(),
                attach_step(
                    old(self).deep_view(),
                    channel,
                    attach.deep_view(),
                    incarnation,
                    old(actions).deep_view(),
                ),
            ),
    {
        proof {
            entries::reinsertion_changes_nothing(self.sessions.deep_view(), channel);
        }
        let session = match self.sessions.get_mut(&channel) {
            Some(session) => session,
            None => return Verdict::Failed(
                EngineError::InvalidState(StateFault::AttachOnUnknownSession),
            ),
        };
        let handle: u32 = attach.handle;
        if session.links.contains(&handle) || session.pending_attaches.contains(&handle) {
            return Verdict::Failed(EngineError::InvalidState(StateFault::HandleInUse));
        }
        session.pending_attaches.insert(handle, incarnation);
        if !session.accepts_links {
            return Verdict::Failed(EngineError::InvalidState(StateFault::NoRemoteLinks));
        }
        act(actions, Action::Attached { session: session.incarnation, incarnation, attach });
        Verdict::Continue
    }

    fn take_detach(&mut self, channel: u16, handle: u32, actions: &mut Vec<Action>) -> (verdict:
        Verdict)
        ensures
            engine_ran(
                verdict,
                final(self).deep_view(),
                final(actions).deep_view(),
                detach_step(old(self).deep_view(), channel, handle, old(actions).deep_view()),
            ),
    {
        proof {
            entries::reinsertion_changes_nothing(self.sessions.deep_view(), channel);
        }
        if let Some(session) = self.sessions.get_mut(&channel) {
            if let Some(gone) = session.links.remove(&handle) {
                stop_link(&gone, actions);
                send_frame(actions, channel, detach_frame(handle, None));
            } else if session.pending_attaches.remove(&handle).is_some() {
                let _ = session.pending_flows.remove(&handle);
                send_frame(actions, channel, detach_frame(handle, None));
            }
        }
        Verdict::Continue
    }

    fn take_end(&mut self, channel: u16, actions: &mut Vec<Action>) -> (verdict: Verdict)
        ensures
            engine_ran(
                verdict,
                final(self).deep_view(),
                final(actions).deep_view(),
                end_step(old(self).deep_view(), channel, old(actions).deep_view()),
            ),
    {
        let _ = self.pending_sessions.remove(&channel);
        if let Some(ended) = self.sessions.remove(&channel) {
            stop_links(&ended, actions);
        }
        send_frame(actions, channel, Performative::End(End { error: None }));
        Verdict::Continue
    }

    /// Takes a frame.
    pub fn handle_frame(
        &mut self,
        frame: Frame,
        fresh_session: u64,
        fresh_link: u64,
        actions: &mut Vec<Action>,
    ) -> (verdict: Verdict)
        ensures
            engine_ran(
                verdict,
                final(self).deep_view(),
                final(actions).deep_view(),
                frame_step(
                    old(self).deep_view(),
                    frame.deep_view(),
                    fresh_session,
                    fresh_link,
                    old(actions).deep_view(),
                ),
            ),
    {
        let (channel, performative, payload): (u16, Option<Performative>, Vec<u8>) = match frame {
            Frame::Sasl(_) => return Verdict::Failed(
                EngineError::InvalidState(StateFault::SaslAfterOpen),
            ),
            Frame::Amqp { channel, performative, payload } => (channel, performative, payload),
        };
        let performative = match performative {
            Some(performative) => performative,
            None => return Verdict::Continue,
        };
        let max: u32 = self.remote_max_frame_size;
        match performative {
            Performative::Begin(begin) => self.take_begin(channel, begin, fresh_session, actions),
            Performative::Attach(attach) => self.take_attach(
                channel,
                *attach,
                fresh_link,
                actions,
            ),
            Performative::Flow(flow) => verdict_on(
                apply_flow(&mut self.sessions, max, channel, flow, actions),
            ),
            Performative::Transfer(transfer) => verdict_on(
                receive_transfer(&mut self.sessions, channel, transfer, payload, actions),
            ),
            Performative::Disposition(disposition) => {
                apply_disposition(&mut self.sessions, channel, disposition, actions);
                Verdict::Continue
            },
            Performative::Detach(detach) => self.take_detach(channel, detach.handle, actions),
            Performative::End(_) => self.take_end(channel, actions),
            Performative::Close(_) => {
                send_frame(actions, 0, Performative::Close(Close { error: None }));
                Verdict::Closed
            },
            Performative::Open(_) => Verdict::Failed(
                EngineError::InvalidState(StateFault::DuplicateOpen),
            ),
        }
    }
}

// ---- requests --------------------------------------------------------------

pub open spec fn accept_session_step(
    e: EngineView,
    channel: u16,
    incarnation: u64,
    ticket: u64,
    actions: Seq<ActionView>,
) -> EngineStep {
    if entries::looked_up(e.pending_sessions, channel) != Some(incarnation) {
        refused(e, actions, ticket, EngineError::RemoteDetached)
    } else {
        EngineStep {
            engine: EngineView {
                sessions: entries::inserted(
                    e.sessions,
                    channel,
                    session::new_session(incarnation),
                ),
                pending_sessions: entries::removed(e.pending_sessions, channel),
                ..e
            },
            actions: actions.push(
                link::written(channel, PerformativeView::Begin(begin_answer(channel))),
            ).push(link::replied(ticket, ReplyView::Done)),
            verdict: Verdict::Continue,
        }
    }
}

pub open spec fn begin_answer(channel: u16) -> BeginView {
    BeginView {
        remote_channel: Some(channel),
        next_outgoing_id: 0,
        incoming_window: SESSION_WINDOW,
        outgoing_window: SESSION_WINDOW,
        handle_max: u32::MAX,
        offered_capabilities: None,
        desired_capabilities: None,
        properties: None,
    }
}

/// The flow that grants a sender its credit.
pub open spec fn granting(handle: u32, next_outgoing_id: u32) -> FlowView {
    FlowView {
        next_incoming_id: Some(0),
        incoming_window: SESSION_WINDOW,
        next_outgoing_id,
        outgoing_window: SESSION_WINDOW,
        handle: Some(handle),
        delivery_count: Some(0),
        link_credit: Some(LINK_CREDIT),
        available: None,
        drain: false,
        echo: false,
        properties: None,
    }
}

pub fn grant_flow(handle: u32, next_outgoing_id: u32) -> (flow: Flow)
    ensures
        flow.deep_view() == granting(handle, next_outgoing_id),
{
    Flow {
        next_incoming_id: Some(0),
        incoming_window: SESSION_WINDOW,
        next_outgoing_id,
        outgoing_window: SESSION_WINDOW,
        handle: Some(handle),
        delivery_count: Some(0),
        link_credit: Some(LINK_CREDIT),
        available: None,
        drain: false,
        echo: false,
        properties: None,
    }
}

/// How an attach is answered. Only the end that receives limits messages.
pub open spec fn attach_answer(
    attach: AttachView,
    max_message_size: u64,
    properties: Option<FieldsView>,
) -> AttachView {
    AttachView {
        max_message_size: if attach.role == Role::Sender {
            Some(max_message_size)
        } else {
            None
        },
        properties,
        ..types::attach_response(attach, attach.source, attach.target)
    }
}

/// The link at this end of what the peer attached.
pub open spec fn local_link(
    attach: AttachView,
    incarnation: u64,
    max_message_size: u64,
) -> LinkView {
    match attach.role {
        Role::Sender => LinkView::Receiving(
            ReceivingView { incarnation, max_message_size, partial: None },
        ),
        Role::Receiver => LinkView::Sending(
            link::new_sending(attach.snd_settle_mode, attach.rcv_settle_mode, incarnation),
        ),
    }
}

/// Accepts a link, unless it was detached, or replaced by another under its
/// handle, in the meantime.
pub open spec fn accept_link_step(
    e: EngineView,
    channel: u16,
    session_incarnation: u64,
    incarnation: u64,
    attach: AttachView,
    max_message_size: u64,
    properties: Option<FieldsView>,
    ticket: u64,
    actions: Seq<ActionView>,
) -> EngineStep {
    let handle = attach.handle;
    match entries::looked_up(e.sessions, channel) {
        None => refused(e, actions, ticket, EngineError::RemoteDetached),
        Some(s) => if s.incarnation != session_incarnation || entries::looked_up(
            s.pending_attaches,
            handle,
        ) != Some(incarnation) {
            refused(e, actions, ticket, EngineError::RemoteDetached)
        } else if entries::looked_up(s.links, handle) is Some {
            refused(
                EngineView {
                    sessions: entries::inserted(
                        e.sessions,
                        channel,
                        SessionView {
                            pending_attaches: entries::removed(s.pending_attaches, handle),
                            ..s
                        },
                    ),
                    ..e
                },
                actions,
                ticket,
                EngineError::InvalidState(StateFault::HandleInUse),
            )
        } else {
            let attached = entries::inserted(
                e.sessions,
                channel,
                SessionView {
                    pending_attaches: entries::removed(s.pending_attaches, handle),
                    links: entries::inserted(
                        s.links,
                        handle,
                        local_link(attach, incarnation, max_message_size),
                    ),
                    pending_flows: entries::removed(s.pending_flows, handle),
                    ..s
                },
            );
            let answered = actions.push(
                link::written(
                    channel,
                    PerformativeView::Attach(attach_answer(attach, max_message_size, properties)),
                ),
            );
            let granted = if attach.role == Role::Sender {
                answered.push(
                    link::written(
                        channel,
                        PerformativeView::Flow(granting(handle, s.next_outgoing_id)),
                    ),
                )
            } else {
                answered
            };
            let flowed = match entries::looked_up(s.pending_flows, handle) {
                Some(flow) => session::flow_step(
                    attached,
                    e.remote_max_frame_size,
                    channel,
                    flow,
                    granted,
                ),
                None => session::idle(attached, granted),
            };
            EngineStep {
                engine: EngineView { sessions: flowed.sessions, ..e },
                actions: if flowed.error is None {
                    flowed.actions.push(link::replied(ticket, ReplyView::Attached(incarnation)))
                } else {
                    flowed.actions
                },
                verdict: verdict_of(flowed.error),
            }
        },
    }
}

pub open spec fn reserve_step(
    e: EngineView,
    channel: u16,
    handle: u32,
    incarnation: u64,
    ticket: u64,
    actions: Seq<ActionView>,
) -> EngineStep {
    match session::link_at(e.sessions, channel, handle) {
        Some(LinkView::Sending(sending)) => if sending.drain.incarnation != incarnation {
            refused(e, actions, ticket, EngineError::RemoteDetached)
        } else {
            let (sending, actions) = link::reserved(sending, channel, handle, ticket, actions);
            going_on(
                e,
                session::with_link(e.sessions, channel, handle, LinkView::Sending(sending)),
                actions,
            )
        },
        _ => refused(e, actions, ticket, EngineError::RemoteDetached),
    }
}

/// Answers a request that may have no ticket.
pub open spec fn told(actions: Seq<ActionView>, ticket: Option<u64>, reply: ReplyView) -> Seq<
    ActionView,
> {
    match ticket {
        Some(ticket) => actions.push(link::replied(ticket, reply)),
        None => actions,
    }
}

/// Gives reserved credit back. A drain that waited for it, and has nothing left
/// to return, is answered.
pub open spec fn release_step(
    e: EngineView,
    reservation: CreditReservationIdentity,
    ticket: Option<u64>,
    actions: Seq<ActionView>,
) -> EngineStep {
    match session::link_at(e.sessions, reservation.channel, reservation.handle) {
        Some(LinkView::Sending(sending)) => if reservation.incarnation
            != sending.drain.incarnation {
            going_on(
                e,
                e.sessions,
                told(
                    actions,
                    ticket,
                    ReplyView::Failed(EngineError::InvalidState(StateFault::ReplacedReservation)),
                ),
            )
        } else {
            let s = entries::looked_up(e.sessions, reservation.channel)->0;
            let (sending, actions) = link::published(
                SendingView {
                    credit_reservations: link::without(
                        sending.credit_reservations,
                        reservation.reservation_id,
                    ),
                    ..sending
                },
                actions,
            );
            let (sending, actions) = link::zero_drained(
                reservation.channel,
                reservation.handle,
                s.next_outgoing_id,
                sending,
                actions,
            );
            going_on(
                e,
                session::with_link(
                    e.sessions,
                    reservation.channel,
                    reservation.handle,
                    LinkView::Sending(sending),
                ),
                told(actions, ticket, ReplyView::Done),
            )
        },
        _ => going_on(
            e,
            e.sessions,
            told(actions, ticket, ReplyView::Failed(EngineError::RemoteDetached)),
        ),
    }
}

/// Takes back a reservation of which nobody heard.
pub open spec fn cancel_step(
    e: EngineView,
    reservation: CreditReservationIdentity,
    actions: Seq<ActionView>,
) -> EngineStep {
    match session::link_at(e.sessions, reservation.channel, reservation.handle) {
        Some(LinkView::Sending(sending)) => if reservation.incarnation
            != sending.drain.incarnation {
            going_on(e, e.sessions, actions)
        } else {
            let (sending, actions) = link::published(
                SendingView {
                    credit_reservations: link::without(
                        sending.credit_reservations,
                        reservation.reservation_id,
                    ),
                    ..sending
                },
                actions,
            );
            going_on(
                e,
                session::with_link(
                    e.sessions,
                    reservation.channel,
                    reservation.handle,
                    LinkView::Sending(sending),
                ),
                actions,
            )
        },
        _ => going_on(e, e.sessions, actions),
    }
}

/// A send that does not start.
pub open spec fn unsent(
    e: EngineView,
    actions: Seq<ActionView>,
    ticket: u64,
    error: EngineError,
) -> EngineStep {
    going_on(
        e,
        e.sessions,
        actions.push(link::replied(ticket, ReplyView::NotStarted(error))).push(
            link::replied(ticket, ReplyView::Failed(error)),
        ),
    )
}

/// Where the first delivery without a reservation is, from `i` on.
pub open spec fn first_unreserved(queued: Seq<QueuedView>, i: int) -> int
    decreases queued.len() - i,
{
    if i < 0 || i >= queued.len() {
        queued.len() as int
    } else if queued[i].reservation is None {
        i
    } else {
        first_unreserved(queued, i + 1)
    }
}

/// Deliveries with a reservation come before those without, and otherwise in the
/// order in which they were sent.
pub open spec fn queued_with(queued: Seq<QueuedView>, send: QueuedView) -> Seq<QueuedView> {
    if send.reservation is Some {
        queued.insert(first_unreserved(queued, 0), send)
    } else {
        queued.push(send)
    }
}

/// Whether a reservation is one that the link holds.
pub open spec fn is_held(
    reservation: CreditReservationIdentity,
    channel: u16,
    handle: u32,
    sending: SendingView,
) -> bool {
    &&& reservation.channel == channel
    &&& reservation.handle == handle
    &&& reservation.incarnation == sending.drain.incarnation
    &&& sending.credit_reservations.contains(reservation.reservation_id)
}

pub open spec fn send_step(
    e: EngineView,
    channel: u16,
    handle: u32,
    incarnation: u64,
    send: QueuedView,
    actions: Seq<ActionView>,
) -> EngineStep {
    match session::link_at(e.sessions, channel, handle) {
        None => unsent(e, actions, send.ticket, EngineError::RemoteDetached),
        Some(found) => if link::link_incarnation(found) != incarnation {
            unsent(e, actions, send.ticket, EngineError::RemoteDetached)
        } else {
            match found {
                LinkView::Receiving(_) => unsent(
                    e,
                    actions,
                    send.ticket,
                    EngineError::InvalidState(StateFault::SendOnReceiver),
                ),
                LinkView::Sending(sending) => if send.reservation is Some && !is_held(
                    send.reservation->0,
                    channel,
                    handle,
                    sending,
                ) {
                    unsent(
                        e,
                        actions,
                        send.ticket,
                        EngineError::InvalidState(StateFault::InvalidReservation),
                    )
                } else {
                    on_sessions(
                        e,
                        session::flush_step(
                            session::with_link(
                                e.sessions,
                                channel,
                                handle,
                                LinkView::Sending(
                                    SendingView {
                                        queued: queued_with(sending.queued, send),
                                        ..sending
                                    },
                                ),
                            ),
                            e.remote_max_frame_size,
                            channel,
                            handle,
                            actions,
                        ),
                    )
                },
            }
        },
    }
}

pub open spec fn settling(
    role: Role,
    delivery_id: u32,
    state: DeliveryStateView,
    batchable: bool,
) -> PerformativeView {
    PerformativeView::Disposition(
        DispositionView {
            role,
            first: delivery_id,
            last: None,
            settled: true,
            state: Some(state),
            batchable,
        },
    )
}

pub open spec fn confirm_step(
    e: EngineView,
    channel: u16,
    handle: u32,
    incarnation: u64,
    delivery_id: u32,
    state: DeliveryStateView,
    batchable: bool,
    ticket: u64,
    actions: Seq<ActionView>,
) -> EngineStep {
    match entries::looked_up(e.sessions, channel) {
        None => refused(
            e,
            actions,
            ticket,
            EngineError::InvalidState(StateFault::ConfirmOnUnknownSession),
        ),
        Some(s) => if (entries::looked_up(s.links, handle) matches Some(LinkView::Sending(sending))
            && sending.drain.incarnation == incarnation) {
            going_on(
                e,
                e.sessions,
                actions.push(
                    link::written(channel, settling(Role::Sender, delivery_id, state, batchable)),
                ).push(link::replied(ticket, ReplyView::Done)),
            )
        } else {
            refused(
                e,
                actions,
                ticket,
                EngineError::InvalidState(StateFault::ConfirmOnUnknownLink),
            )
        },
    }
}

pub open spec fn drained_step(
    e: EngineView,
    request: DrainRequest,
    ticket: u64,
    actions: Seq<ActionView>,
) -> EngineStep {
    match session::link_at(e.sessions, request.channel, request.handle) {
        Some(LinkView::Sending(sending)) => {
            let s = entries::looked_up(e.sessions, request.channel)->0;
            let (sending, actions) = link::drain_acknowledged(
                sending,
                request,
                s.next_outgoing_id,
                ticket,
                actions,
            );
            going_on(
                e,
                session::with_link(
                    e.sessions,
                    request.channel,
                    request.handle,
                    LinkView::Sending(sending),
                ),
                actions,
            )
        },
        _ => refused(e, actions, ticket, EngineError::RemoteDetached),
    }
}

pub open spec fn settle_step(
    e: EngineView,
    channel: u16,
    handle: u32,
    incarnation: u64,
    delivery_id: u32,
    state: DeliveryStateView,
    ticket: u64,
    actions: Seq<ActionView>,
) -> EngineStep {
    match entries::looked_up(e.sessions, channel) {
        None => refused(e, actions, ticket, EngineError::RemoteDetached),
        Some(s) => if (entries::looked_up(s.links, handle) matches Some(
            LinkView::Receiving(receiving),
        ) && receiving.incarnation == incarnation) {
            going_on(
                e,
                e.sessions,
                actions.push(
                    link::written(channel, settling(Role::Receiver, delivery_id, state, false)),
                ).push(link::replied(ticket, ReplyView::Done)),
            )
        } else {
            refused(
                e,
                actions,
                ticket,
                EngineError::InvalidState(StateFault::SettleOnUnknownLink),
            )
        },
    }
}

/// Detaches a link, if it is still there.
pub open spec fn close_link_step(
    e: EngineView,
    channel: u16,
    handle: u32,
    incarnation: u64,
    error: Option<ErrorView>,
    ticket: u64,
    actions: Seq<ActionView>,
) -> EngineStep {
    match session::link_at(e.sessions, channel, handle) {
        Some(found) if link::link_incarnation(found) == incarnation => {
            let s = entries::looked_up(e.sessions, channel)->0;
            going_on(
                e,
                entries::inserted(
                    e.sessions,
                    channel,
                    SessionView { links: entries::removed(s.links, handle), ..s },
                ),
                link::stopped(
                    found,
                    actions.push(link::written(channel, detaching(handle, error))),
                ).push(link::replied(ticket, ReplyView::Done)),
            )
        },
        _ => going_on(e, e.sessions, actions.push(link::replied(ticket, ReplyView::Done))),
    }
}

/// What a request does to a connection.
pub open spec fn command_step(
    e: EngineView,
    command: CommandView,
    actions: Seq<ActionView>,
) -> EngineStep {
    match command {
        CommandView::AcceptSession { channel, incarnation, ticket } => accept_session_step(
            e,
            channel,
            incarnation,
            ticket,
            actions,
        ),
        CommandView::AcceptLink {
            channel,
            session_incarnation,
            incarnation,
            attach,
            max_message_size,
            properties,
            ticket,
        } => accept_link_step(
            e,
            channel,
            session_incarnation,
            incarnation,
            attach,
            max_message_size,
            properties,
            ticket,
            actions,
        ),
        CommandView::Send {
            channel,
            handle,
            incarnation,
            message,
            message_format,
            delivery_tag,
            reservation,
            ticket,
        } => send_step(
            e,
            channel,
            handle,
            incarnation,
            QueuedView { message, message_format, delivery_tag, reservation, ticket },
            actions,
        ),
        CommandView::ReserveCredit { channel, handle, incarnation, ticket } => reserve_step(
            e,
            channel,
            handle,
            incarnation,
            ticket,
            actions,
        ),
        CommandView::ReleaseCredit { reservation, ticket } => release_step(
            e,
            reservation,
            ticket,
            actions,
        ),
        CommandView::Confirm {
            channel,
            handle,
            incarnation,
            delivery_id,
            state,
            batchable,
            ticket,
        } => confirm_step(
            e,
            channel,
            handle,
            incarnation,
            delivery_id,
            state,
            batchable,
            ticket,
            actions,
        ),
        CommandView::Drained { request, ticket } => drained_step(e, request, ticket, actions),
        CommandView::Settle { channel, handle, incarnation, delivery_id, state, ticket } =>
            settle_step(e, channel, handle, incarnation, delivery_id, state, ticket, actions),
        CommandView::Detach { channel, handle, incarnation, error, ticket } => close_link_step(
            e,
            channel,
            handle,
            incarnation,
            error,
            ticket,
            actions,
        ),
        CommandView::Close { error, ticket } => EngineStep {
            engine: e,
            actions: actions.push(
                link::written(0, PerformativeView::Close(CloseView { error })),
            ),
            verdict: Verdict::Closing(ticket),
        },
    }
}

pub(crate) fn refuse(actions: &mut Vec<Action>, ticket: u64, error: EngineError)
    ensures
        final(actions).deep_view() == old(actions).deep_view().push(
            link::replied(ticket, ReplyView::Failed(error)),
        ),
{
    answer(actions, ticket, Reply::Failed(error));
}

pub(crate) fn tell(actions: &mut Vec<Action>, ticket: Option<u64>, reply: Reply)
    ensures
        final(actions).deep_view() == told(old(actions).deep_view(), ticket, reply.deep_view()),
{
    if let Some(ticket) = ticket {
        answer(actions, ticket, reply);
    }
}

pub(crate) fn refuse_send(actions: &mut Vec<Action>, ticket: u64, error: EngineError)
    ensures
        final(actions).deep_view() == old(actions).deep_view().push(
            link::replied(ticket, ReplyView::NotStarted(error)),
        ).push(link::replied(ticket, ReplyView::Failed(error))),
{
    answer(actions, ticket, Reply::NotStarted(error));
    answer(actions, ticket, Reply::Failed(error));
}

pub(crate) fn settlement(
    role: Role,
    delivery_id: u32,
    state: DeliveryState,
    batchable: bool,
) -> (performative: Performative)
    ensures
        performative.deep_view() == settling(role, delivery_id, state.deep_view(), batchable),
{
    Performative::Disposition(
        Disposition {
            role,
            first: delivery_id,
            last: None,
            settled: true,
            state: Some(state),
            batchable,
        },
    )
}

/// Queues a delivery.
#[verifier::loop_isolation(false)]
fn enqueue(queued: &mut Vec<QueuedSend>, send: QueuedSend)
    ensures
        final(queued).deep_view() == queued_with(old(queued).deep_view(), send.deep_view()),
{
    let ghost before = queued.deep_view();
    let ghost last = send.deep_view();
    if send.reservation.is_none() {
        queued.push(send);
        proof {
            assert(queued.deep_view() =~= before.push(last));
        }
        return ;
    }
    let mut i: usize = 0;
    while i < queued.len() && queued[i].reservation.is_some()
        invariant
            i <= queued@.len(),
            queued.deep_view() == before,
            first_unreserved(before, 0) == first_unreserved(before, i as int),
        decreases queued@.len() - i,
    {
        proof {
            assert(before[i as int].reservation is Some);
        }
        i = i + 1;
    }
    proof {
        if i < queued@.len() {
            assert(before[i as int].reservation is None);
        }
    }
    queued.insert(i, send);
    proof {
        assert(queued.deep_view() =~= before.insert(i as int, last));
    }
}

impl Engine {
    fn accept_session(
        &mut self,
        channel: u16,
        incarnation: u64,
        ticket: u64,
        actions: &mut Vec<Action>,
    ) -> (verdict: Verdict)
        ensures
            engine_ran(
                verdict,
                final(self).deep_view(),
                final(actions).deep_view(),
                accept_session_step(
                    old(self).deep_view(),
                    channel,
                    incarnation,
                    ticket,
                    old(actions).deep_view(),
                ),
            ),
    {
        let current: bool = match self.pending_sessions.get(&channel) {
            Some(pending) => *pending == incarnation,
            None => false,
        };
        if !current {
            refuse(actions, ticket, EngineError::RemoteDetached);
            return Verdict::Continue;
        }
        let _ = self.pending_sessions.remove(&channel);
        let mut begin = Begin::default();
        begin.remote_channel = Some(channel);
        send_frame(actions, channel, Performative::Begin(begin));
        self.sessions.insert(channel, SessionState::new(incarnation));
        answer(actions, ticket, Reply::Done);
        Verdict::Continue
    }

    fn accept_link(
        &mut self,
        channel: u16,
        session_incarnation: u64,
        incarnation: u64,
        attach: Attach,
        max_message_size: u64,
        properties: Option<Fields>,
        ticket: u64,
        actions: &mut Vec<Action>,
    ) -> (verdict: Verdict)
        ensures
            engine_ran(
                verdict,
                final(self).deep_view(),
                final(actions).deep_view(),
                accept_link_step(
                    old(self).deep_view(),
                    channel,
                    session_incarnation,
                    incarnation,
                    attach.deep_view(),
                    max_message_size,
                    properties.deep_view(),
                    ticket,
                    old(actions).deep_view(),
                ),
            ),
    {
        let handle: u32 = attach.handle;
        proof {
            entries::reinsertion_changes_nothing(self.sessions.deep_view(), channel);
        }
        let session = match self.sessions.get_mut(&channel) {
            Some(session) => session,
            None => {
                refuse(actions, ticket, EngineError::RemoteDetached);
                return Verdict::Continue;
            },
        };
        let current: bool = match session.pending_attaches.get(&handle) {
            Some(pending) => *pending == incarnation,
            None => false,
        };
        if session.incarnation != session_incarnation || !current {
            refuse(actions, ticket, EngineError::RemoteDetached);
            return Verdict::Continue;
        }
        let _ = session.pending_attaches.remove(&handle);
        if session.links.contains(&handle) {
            refuse(actions, ticket, EngineError::InvalidState(StateFault::HandleInUse));
            return Verdict::Continue;
        }
        let receives: bool = match attach.role {
            Role::Sender => true,
            Role::Receiver => false,
        };
        let mut response = attach.response(attach.source.copied(), attach.target.copied());
        response.max_message_size = if receives {
            Some(max_message_size)
        } else {
            None
        };
        response.properties = properties;
        send_frame(actions, channel, Performative::Attach(Box::new(response)));
        if receives {
            session.links.insert(
                handle,
                LinkState::Receiving(
                    ReceivingLink { incarnation, max_message_size, partial: None },
                ),
            );
            send_frame(
                actions,
                channel,
                Performative::Flow(grant_flow(handle, session.next_outgoing_id)),
            );
        } else {
            session.links.insert(
                handle,
                LinkState::Sending(
                    SendingLink::new(attach.snd_settle_mode, attach.rcv_settle_mode, incarnation),
                ),
            );
        }
        if let Some(flow) = session.pending_flows.remove(&handle) {
            let max: u32 = self.remote_max_frame_size;
            match apply_flow(&mut self.sessions, max, channel, flow, actions) {
                Ok(_) => {},
                Err(error) => return Verdict::Failed(error),
            }
        }
        answer(actions, ticket, Reply::Attached(incarnation));
        Verdict::Continue
    }

    fn reserve_credit(
        &mut self,
        channel: u16,
        handle: u32,
        incarnation: u64,
        ticket: u64,
        actions: &mut Vec<Action>,
    ) -> (verdict: Verdict)
        ensures
            engine_ran(
                verdict,
                final(self).deep_view(),
                final(actions).deep_view(),
                reserve_step(
                    old(self).deep_view(),
                    channel,
                    handle,
                    incarnation,
                    ticket,
                    old(actions).deep_view(),
                ),
            ),
    {
        proof {
            session::same_link_changes_nothing(self.sessions.deep_view(), channel, handle);
            entries::reinsertion_changes_nothing(self.sessions.deep_view(), channel);
        }
        if let Some(session) = self.sessions.get_mut(&channel) {
            if let Some(LinkState::Sending(sending)) = session.links.get_mut(&handle) {
                if sending.drain.incarnation == incarnation {
                    link::reserve_credit(sending, channel, handle, ticket, actions);
                    return Verdict::Continue;
                }
            }
        }
        refuse(actions, ticket, EngineError::RemoteDetached);
        Verdict::Continue
    }

    fn release_credit(
        &mut self,
        reservation: CreditReservationIdentity,
        ticket: Option<u64>,
        actions: &mut Vec<Action>,
    ) -> (verdict: Verdict)
        ensures
            engine_ran(
                verdict,
                final(self).deep_view(),
                final(actions).deep_view(),
                release_step(
                    old(self).deep_view(),
                    reservation,
                    ticket,
                    old(actions).deep_view(),
                ),
            ),
    {
        let channel: u16 = reservation.channel;
        let handle: u32 = reservation.handle;
        proof {
            session::same_link_changes_nothing(self.sessions.deep_view(), channel, handle);
            entries::reinsertion_changes_nothing(self.sessions.deep_view(), channel);
        }
        if let Some(session) = self.sessions.get_mut(&channel) {
            let next_id: u32 = session.next_outgoing_id;
            if let Some(LinkState::Sending(sending)) = session.links.get_mut(&handle) {
                if sending.drain.incarnation != reservation.incarnation {
                    tell(
                        actions,
                        ticket,
                        Reply::Failed(EngineError::InvalidState(StateFault::ReplacedReservation)),
                    );
                    return Verdict::Continue;
                }
                forget_reservation(sending, reservation.reservation_id);
                publish_credit(sending, actions);
                complete_zero_credit_drain(channel, handle, next_id, sending, actions);
                tell(actions, ticket, Reply::Done);
                return Verdict::Continue;
            }
        }
        tell(actions, ticket, Reply::Failed(EngineError::RemoteDetached));
        Verdict::Continue
    }

    /// Takes back a reservation of which nobody heard.
    pub fn cancel_reservation(
        &mut self,
        reservation: CreditReservationIdentity,
        actions: &mut Vec<Action>,
    )
        ensures
            engine_ran(
                Verdict::Continue,
                final(self).deep_view(),
                final(actions).deep_view(),
                cancel_step(old(self).deep_view(), reservation, old(actions).deep_view()),
            ),
    {
        let channel: u16 = reservation.channel;
        let handle: u32 = reservation.handle;
        proof {
            session::same_link_changes_nothing(self.sessions.deep_view(), channel, handle);
            entries::reinsertion_changes_nothing(self.sessions.deep_view(), channel);
        }
        if let Some(session) = self.sessions.get_mut(&channel) {
            if let Some(LinkState::Sending(sending)) = session.links.get_mut(&handle) {
                if sending.drain.incarnation == reservation.incarnation {
                    forget_reservation(sending, reservation.reservation_id);
                    publish_credit(sending, actions);
                }
            }
        }
    }

    fn send(
        &mut self,
        channel: u16,
        handle: u32,
        incarnation: u64,
        send: QueuedSend,
        actions: &mut Vec<Action>,
    ) -> (verdict: Verdict)
        ensures
            engine_ran(
                verdict,
                final(self).deep_view(),
                final(actions).deep_view(),
                send_step(
                    old(self).deep_view(),
                    channel,
                    handle,
                    incarnation,
                    send.deep_view(),
                    old(actions).deep_view(),
                ),
            ),
    {
        let ticket: u64 = send.ticket;
        proof {
            session::same_link_changes_nothing(self.sessions.deep_view(), channel, handle);
            entries::reinsertion_changes_nothing(self.sessions.deep_view(), channel);
        }
        let session = match self.sessions.get_mut(&channel) {
            Some(session) => session,
            None => {
                refuse_send(actions, ticket, EngineError::RemoteDetached);
                return Verdict::Continue;
            },
        };
        let found = match session.links.get_mut(&handle) {
            Some(found) => found,
            None => {
                refuse_send(actions, ticket, EngineError::RemoteDetached);
                return Verdict::Continue;
            },
        };
        if found.incarnation() != incarnation {
            refuse_send(actions, ticket, EngineError::RemoteDetached);
            return Verdict::Continue;
        }
        let sending = match found {
            LinkState::Sending(sending) => sending,
            LinkState::Receiving(_) => {
                refuse_send(actions, ticket, EngineError::InvalidState(StateFault::SendOnReceiver));
                return Verdict::Continue;
            },
        };
        if let Some(reservation) = send.reservation {
            let held: bool = reservation.channel == channel && reservation.handle == handle
                && reservation.incarnation == sending.drain.incarnation && holds_reservation(
                sending,
                reservation.reservation_id,
            );
            if !held {
                refuse_send(
                    actions,
                    ticket,
                    EngineError::InvalidState(StateFault::InvalidReservation),
                );
                return Verdict::Continue;
            }
        }
        enqueue(&mut sending.queued, send);
        let max: u32 = self.remote_max_frame_size;
        verdict_on(flush_link(&mut self.sessions, max, channel, handle, actions))
    }

    fn confirm(
        &self,
        channel: u16,
        handle: u32,
        incarnation: u64,
        delivery_id: u32,
        state: DeliveryState,
        batchable: bool,
        ticket: u64,
        actions: &mut Vec<Action>,
    ) -> (verdict: Verdict)
        ensures
            engine_ran(
                verdict,
                self.deep_view(),
                final(actions).deep_view(),
                confirm_step(
                    self.deep_view(),
                    channel,
                    handle,
                    incarnation,
                    delivery_id,
                    state.deep_view(),
                    batchable,
                    ticket,
                    old(actions).deep_view(),
                ),
            ),
    {
        let session = match self.sessions.get(&channel) {
            Some(session) => session,
            None => {
                refuse(
                    actions,
                    ticket,
                    EngineError::InvalidState(StateFault::ConfirmOnUnknownSession),
                );
                return Verdict::Continue;
            },
        };
        let current: bool = match session.links.get(&handle) {
            Some(LinkState::Sending(sending)) => sending.drain.incarnation == incarnation,
            _ => false,
        };
        if !current {
            refuse(actions, ticket, EngineError::InvalidState(StateFault::ConfirmOnUnknownLink));
            return Verdict::Continue;
        }
        send_frame(actions, channel, settlement(Role::Sender, delivery_id, state, batchable));
        answer(actions, ticket, Reply::Done);
        Verdict::Continue
    }

    fn drained(
        &mut self,
        request: DrainRequest,
        ticket: u64,
        actions: &mut Vec<Action>,
    ) -> (verdict: Verdict)
        ensures
            engine_ran(
                verdict,
                final(self).deep_view(),
                final(actions).deep_view(),
                drained_step(old(self).deep_view(), request, ticket, old(actions).deep_view()),
            ),
    {
        let channel: u16 = request.channel;
        let handle: u32 = request.handle;
        proof {
            session::same_link_changes_nothing(self.sessions.deep_view(), channel, handle);
            entries::reinsertion_changes_nothing(self.sessions.deep_view(), channel);
        }
        if let Some(session) = self.sessions.get_mut(&channel) {
            let next_id: u32 = session.next_outgoing_id;
            if let Some(LinkState::Sending(sending)) = session.links.get_mut(&handle) {
                acknowledge_drain(sending, request, next_id, ticket, actions);
                return Verdict::Continue;
            }
        }
        refuse(actions, ticket, EngineError::RemoteDetached);
        Verdict::Continue
    }

    fn settle(
        &self,
        channel: u16,
        handle: u32,
        incarnation: u64,
        delivery_id: u32,
        state: DeliveryState,
        ticket: u64,
        actions: &mut Vec<Action>,
    ) -> (verdict: Verdict)
        ensures
            engine_ran(
                verdict,
                self.deep_view(),
                final(actions).deep_view(),
                settle_step(
                    self.deep_view(),
                    channel,
                    handle,
                    incarnation,
                    delivery_id,
                    state.deep_view(),
                    ticket,
                    old(actions).deep_view(),
                ),
            ),
    {
        let session = match self.sessions.get(&channel) {
            Some(session) => session,
            None => {
                refuse(actions, ticket, EngineError::RemoteDetached);
                return Verdict::Continue;
            },
        };
        let current: bool = match session.links.get(&handle) {
            Some(LinkState::Receiving(receiving)) => receiving.incarnation == incarnation,
            _ => false,
        };
        if !current {
            refuse(actions, ticket, EngineError::InvalidState(StateFault::SettleOnUnknownLink));
            return Verdict::Continue;
        }
        send_frame(actions, channel, settlement(Role::Receiver, delivery_id, state, false));
        answer(actions, ticket, Reply::Done);
        Verdict::Continue
    }

    fn close_link(
        &mut self,
        channel: u16,
        handle: u32,
        incarnation: u64,
        error: Option<Error>,
        ticket: u64,
        actions: &mut Vec<Action>,
    ) -> (verdict: Verdict)
        ensures
            engine_ran(
                verdict,
                final(self).deep_view(),
                final(actions).deep_view(),
                close_link_step(
                    old(self).deep_view(),
                    channel,
                    handle,
                    incarnation,
                    error.deep_view(),
                    ticket,
                    old(actions).deep_view(),
                ),
            ),
    {
        proof {
            entries::reinsertion_changes_nothing(self.sessions.deep_view(), channel);
        }
        if let Some(session) = self.sessions.get_mut(&channel) {
            let current: bool = match session.links.get(&handle) {
                Some(found) => found.incarnation() == incarnation,
                None => false,
            };
            if current {
                if let Some(found) = session.links.remove(&handle) {
                    send_frame(actions, channel, detach_frame(handle, error));
                    stop_link(&found, actions);
                }
            }
        }
        answer(actions, ticket, Reply::Done);
        Verdict::Continue
    }

    /// Takes a request.
    pub fn handle_command(&mut self, command: Command, actions: &mut Vec<Action>) -> (verdict:
        Verdict)
        ensures
            engine_ran(
                verdict,
                final(self).deep_view(),
                final(actions).deep_view(),
                command_step(
                    old(self).deep_view(),
                    command.deep_view(),
                    old(actions).deep_view(),
                ),
            ),
    {
        match command {
            Command::AcceptSession { channel, incarnation, ticket } => self.accept_session(
                channel,
                incarnation,
                ticket,
                actions,
            ),
            Command::AcceptLink {
                channel,
                session_incarnation,
                incarnation,
                attach,
                max_message_size,
                properties,
                ticket,
            } => self.accept_link(
                channel,
                session_incarnation,
                incarnation,
                attach,
                max_message_size,
                properties,
                ticket,
                actions,
            ),
            Command::Send {
                channel,
                handle,
                incarnation,
                message,
                message_format,
                delivery_tag,
                reservation,
                ticket,
            } => self.send(
                channel,
                handle,
                incarnation,
                QueuedSend { message, message_format, delivery_tag, reservation, ticket },
                actions,
            ),
            Command::ReserveCredit { channel, handle, incarnation, ticket } => self.reserve_credit(
                channel,
                handle,
                incarnation,
                ticket,
                actions,
            ),
            Command::ReleaseCredit { reservation, ticket } => self.release_credit(
                reservation,
                ticket,
                actions,
            ),
            Command::Confirm {
                channel,
                handle,
                incarnation,
                delivery_id,
                state,
                batchable,
                ticket,
            } => self.confirm(
                channel,
                handle,
                incarnation,
                delivery_id,
                state,
                batchable,
                ticket,
                actions,
            ),
            Command::Drained { request, ticket } => self.drained(request, ticket, actions),
            Command::Settle { channel, handle, incarnation, delivery_id, state, ticket } =>
                self.settle(channel, handle, incarnation, delivery_id, state, ticket, actions),
            Command::Detach { channel, handle, incarnation, error, ticket } => self.close_link(
                channel,
                handle,
                incarnation,
                error,
                ticket,
                actions,
            ),
            Command::Close { error, ticket } => {
                send_frame(actions, 0, Performative::Close(Close { error }));
                Verdict::Closing(ticket)
            },
        }
    }

    /// Ends a connection: every link is stopped, and a request to close that the
    /// peer has not answered fails.
    pub fn stop(&self, closing: Option<u64>, actions: &mut Vec<Action>)
        ensures
            final(actions).deep_view() == told(
                session::stopped_sessions(
                    self.deep_view().sessions,
                    0,
                    old(actions).deep_view(),
                ),
                closing,
                ReplyView::Failed(EngineError::RemoteClosed),
            ),
    {
        stop_sessions(&self.sessions, actions);
        tell(actions, closing, Reply::Failed(EngineError::RemoteClosed));
    }
}

} // verus!
