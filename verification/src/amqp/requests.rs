//! What the requesting end of a connection asks of its peer, and how it takes the answers.

use vstd::prelude::*;

use crate::amqp::client;
use crate::amqp::client::{
    AttachRequestView, ClientCommandView, ClientVerdict, ClientView, PendingAttach,
};
use crate::amqp::entries;
use crate::amqp::link;
use crate::amqp::link::{ActionView, EngineError, LinkView, ReplyView, StateFault};
use crate::amqp::promises;
use crate::amqp::session;
use crate::amqp::session::SessionView;
use crate::amqp::types::{
    AttachView, BeginView, CloseView, DeliveryStateView, DetachView, DispositionView, EndView,
    PerformativeView, Role,
};

verus! {

/// The session on a channel.
pub open spec fn session_on(c: ClientView, channel: u16) -> Option<SessionView> {
    entries::looked_up(c.sessions, channel)
}

/// The link under a handle.
pub open spec fn link_under(c: ClientView, channel: u16, handle: u32) -> Option<LinkView> {
    if session_on(c, channel) is Some {
        entries::looked_up(session_on(c, channel)->Some_0.links, handle)
    } else {
        None
    }
}

// ---- sessions --------------------------------------------------------------

/// A session is begun on the next channel. When the peer begins it too, whoever asked for
/// it is told the channel.
pub proof fn sessions_are_begun_and_answered(
    c: ClientView,
    ticket: u64,
    fresh: u64,
    other: u64,
    actions: Seq<ActionView>,
    answer: BeginView,
    later: Seq<ActionView>,
)
    ensures
        ({
            let channel = c.next_channel;
            let asked = client::command_step(
                c,
                ClientCommandView::Begin { ticket },
                fresh,
                other,
                actions,
            );
            let frame = promises::frame_on(channel, PerformativeView::Begin(answer));
            let heard = client::frame_step(asked.client, frame, later);
            &&& asked.verdict is Continue
            &&& asked.actions.len() == actions.len() + 1
            &&& asked.actions.last() matches ActionView::Write {
                channel: on,
                performative: PerformativeView::Begin(begin),
                payload,
            }
            &&& on == channel
            &&& payload.len() == 0
            &&& begin.remote_channel is None
            &&& begin.next_outgoing_id == 0
            &&& begin.incoming_window == 2_048
            &&& begin.outgoing_window == 2_048
            &&& begin.handle_max == 0xffff_ffff
            &&& asked.client.next_channel == if channel == 0xffff {
                0
            } else {
                channel + 1
            }
            &&& session_on(asked.client, channel) matches Some(s)
            &&& s.incarnation == fresh
            &&& s.links.len() == 0
            &&& s.next_outgoing_id == 0
            &&& heard.verdict is Continue
            &&& heard.actions == later.push(
                promises::answered(ticket, ReplyView::Begun(channel)),
            )
            &&& heard.client.sessions == asked.client.sessions
        }),
{
    entries::insertion_is_looked_up(
        c.sessions,
        c.next_channel,
        session::new_session(fresh),
        c.next_channel,
    );
    entries::insertion_is_looked_up(c.pending_begins, c.next_channel, ticket, c.next_channel);
}

/// A session that is ended is gone. The peer is told before the links stop, and whoever
/// asked is answered last.
pub proof fn sessions_are_ended(
    c: ClientView,
    channel: u16,
    ticket: u64,
    fresh: u64,
    other: u64,
    actions: Seq<ActionView>,
)
    requires
        entries::distinct(c.sessions),
    ensures
        ({
            let step = client::command_step(
                c,
                ClientCommandView::End { channel, ticket },
                fresh,
                other,
                actions,
            );
            &&& step.verdict is Continue
            &&& session_on(step.client, channel) is None
            &&& step.actions.last() == promises::answered(ticket, ReplyView::Done)
            &&& session_on(c, channel) is None ==> step.actions == actions.push(
                promises::wrote(channel, PerformativeView::End(EndView { error: None })),
            ).push(promises::answered(ticket, ReplyView::Done))
            &&& forall|on: u16|
                on != channel ==> #[trigger] session_on(step.client, on) == session_on(c, on)
        }),
{
    let step = client::command_step(
        c,
        ClientCommandView::End { channel, ticket },
        fresh,
        other,
        actions,
    );
    entries::removal_is_looked_up(c.sessions, channel, channel);
    assert forall|on: u16| on != channel implies #[trigger] session_on(step.client, on)
        == session_on(c, on) by {
        entries::removal_is_looked_up(c.sessions, channel, on);
    }
}

// ---- links -----------------------------------------------------------------

/// Whether an attach asks for a link as it was requested.
pub open spec fn asks_for(attach: AttachView, request: AttachRequestView, handle: u32) -> bool {
    &&& attach.name == request.name
    &&& attach.handle == handle
    &&& attach.role == request.role
    &&& attach.snd_settle_mode == request.sender_settle_mode
    &&& attach.rcv_settle_mode == request.receiver_settle_mode
    &&& attach.source == request.source
    &&& attach.target == request.target
    &&& attach.unsettled is None
    &&& request.role is Sender ==> attach.initial_delivery_count == Some(0u32)
    &&& request.role is Receiver ==> attach.initial_delivery_count is None
    &&& attach.properties is None
}

/// A link is asked for under the next handle of its session, and is there from then on.
pub proof fn links_are_asked_for(
    c: ClientView,
    channel: u16,
    handle: u32,
    s: SessionView,
    request: AttachRequestView,
    ticket: u64,
    fresh: u64,
    other: u64,
    actions: Seq<ActionView>,
)
    requires
        entries::looked_up(c.next_handles, channel) == Some(handle),
        session_on(c, channel) == Some(s),
    ensures
        ({
            let step = client::command_step(
                c,
                ClientCommandView::Attach { channel, request, ticket },
                other,
                fresh,
                actions,
            );
            &&& step.verdict is Continue
            &&& step.actions.len() == actions.len() + 1
            &&& step.actions.last() matches ActionView::Write {
                channel: on,
                performative: PerformativeView::Attach(attach),
                payload,
            }
            &&& on == channel
            &&& payload.len() == 0
            &&& asks_for(attach, request, handle)
            &&& entries::looked_up(step.client.pending_attaches, request.name) == Some(
                PendingAttach { handle, incarnation: fresh, ticket },
            )
            &&& entries::looked_up(step.client.next_handles, channel) == Some(
                if handle == 0xffff_ffff {
                    0u32
                } else {
                    (handle + 1) as u32
                },
            )
            &&& request.role is Sender ==> {
                &&& link_under(step.client, channel, handle) matches Some(LinkView::Sending(new))
                &&& new.drain.incarnation == fresh
                &&& new.settle_mode == request.sender_settle_mode
                &&& new.receiver_settle_mode == request.receiver_settle_mode
                &&& new.delivery_count == 0
                &&& new.credit_limit == 0
                &&& new.queued.len() == 0
                &&& new.unsettled.len() == 0
            }
            &&& request.role is Receiver ==> {
                &&& link_under(step.client, channel, handle) matches Some(LinkView::Receiving(new))
                &&& new.incarnation == fresh
                &&& new.partial is None
            }
        }),
{
    let new = client::requested_link(request, fresh);
    let links = entries::inserted(s.links, handle, new);
    entries::insertion_is_looked_up(s.links, handle, new, handle);
    entries::insertion_is_looked_up(c.sessions, channel, SessionView { links, ..s }, channel);
    entries::insertion_is_looked_up(
        c.next_handles,
        channel,
        handle.wrapping_add(1),
        channel,
    );
    entries::insertion_is_looked_up(
        c.pending_attaches,
        request.name,
        PendingAttach { handle, incarnation: fresh, ticket },
        request.name,
    );
}

/// A link on a session that is not there is not asked for: the connection fails.
pub proof fn links_need_a_session(
    c: ClientView,
    channel: u16,
    request: AttachRequestView,
    ticket: u64,
    fresh: u64,
    other: u64,
    actions: Seq<ActionView>,
)
    requires
        entries::looked_up(c.next_handles, channel) is None || session_on(c, channel) is None,
    ensures
        ({
            let step = client::command_step(
                c,
                ClientCommandView::Attach { channel, request, ticket },
                other,
                fresh,
                actions,
            );
            &&& step.actions == actions
            &&& step.client.sessions == c.sessions
            &&& step.verdict == ClientVerdict::Failed(
                EngineError::InvalidState(StateFault::AttachOnUnknownSession),
            )
        }),
{
}

/// The answer to an attach goes to whoever asked under that name, with the handle of the
/// link. A peer that sends is given credit first. An answer that nobody asked for is
/// ignored.
pub proof fn attached_links_are_told(
    c: ClientView,
    channel: u16,
    attach: AttachView,
    actions: Seq<ActionView>,
)
    ensures
        ({
            let frame = promises::frame_on(channel, PerformativeView::Attach(attach));
            let step = client::frame_step(c, frame, actions);
            &&& step.verdict is Continue
            &&& step.client.sessions == c.sessions
            &&& match entries::looked_up(c.pending_attaches, attach.name) {
                None => step.actions == actions,
                Some(pending) => {
                    &&& step.actions.last() == promises::answered(
                        pending.ticket,
                        ReplyView::Opened {
                            handle: pending.handle,
                            incarnation: pending.incarnation,
                            attach,
                        },
                    )
                    &&& attach.role is Receiver ==> step.actions.len() == actions.len() + 1
                    &&& attach.role is Sender ==> {
                        &&& step.actions.len() == actions.len() + 2
                        &&& step.actions[actions.len() as int] matches ActionView::Write {
                            channel: on,
                            performative: PerformativeView::Flow(flow),
                            ..
                        }
                        &&& on == channel
                        &&& promises::gives_first_credit(flow, pending.handle)
                    }
                },
            }
        }),
{
}

/// A link that is there is detached: the peer is told, and whoever asked is answered once
/// the peer has detached it too. Then the link is gone.
pub proof fn links_are_detached_and_answered(
    c: ClientView,
    channel: u16,
    handle: u32,
    incarnation: u64,
    ticket: u64,
    fresh: u64,
    other: u64,
    actions: Seq<ActionView>,
    answer: DetachView,
    later: Seq<ActionView>,
)
    requires
        session_on(c, channel) matches Some(s) && entries::distinct(s.links),
        link_under(c, channel, handle) matches Some(found) && link::link_incarnation(found)
            == incarnation,
        answer.handle == handle,
    ensures
        ({
            let asked = client::command_step(
                c,
                ClientCommandView::Detach { channel, handle, incarnation, ticket },
                fresh,
                other,
                actions,
            );
            let frame = promises::frame_on(channel, PerformativeView::Detach(answer));
            let heard = client::frame_step(asked.client, frame, later);
            &&& asked.verdict is Continue
            &&& asked.actions == actions.push(
                promises::wrote(
                    channel,
                    PerformativeView::Detach(DetachView { handle, closed: true, error: None }),
                ),
            )
            &&& heard.verdict is Continue
            &&& link_under(heard.client, channel, handle) is None
            &&& heard.actions.last() == promises::answered(ticket, ReplyView::Done)
        }),
{
    let s = session_on(c, channel)->Some_0;
    let links = entries::removed(s.links, handle);
    entries::insertion_is_looked_up(
        c.pending_detaches,
        (channel, handle),
        ticket,
        (channel, handle),
    );
    entries::removal_is_looked_up(s.links, handle, handle);
    entries::insertion_is_looked_up(c.sessions, channel, SessionView { links, ..s }, channel);
}

/// A detach of a link that is gone, or was replaced, is answered at once and does nothing.
pub proof fn detaches_of_other_links_are_answered(
    c: ClientView,
    channel: u16,
    handle: u32,
    incarnation: u64,
    ticket: u64,
    fresh: u64,
    other: u64,
    actions: Seq<ActionView>,
)
    requires
        link_under(c, channel, handle) matches Some(found) ==> link::link_incarnation(found)
            != incarnation,
    ensures
        ({
            let step = client::command_step(
                c,
                ClientCommandView::Detach { channel, handle, incarnation, ticket },
                fresh,
                other,
                actions,
            );
            &&& step.client == c
            &&& step.verdict is Continue
            &&& step.actions == actions.push(promises::answered(ticket, ReplyView::Done))
        }),
{
}

// ---- deliveries and the end ------------------------------------------------

/// A delivery that came is settled with the state that was given, or refused when its
/// link is gone.
pub proof fn received_deliveries_are_settled(
    c: ClientView,
    channel: u16,
    handle: u32,
    incarnation: u64,
    delivery_id: u32,
    state: DeliveryStateView,
    ticket: u64,
    fresh: u64,
    other: u64,
    actions: Seq<ActionView>,
)
    ensures
        ({
            let step = client::command_step(
                c,
                ClientCommandView::Settle {
                    channel,
                    handle,
                    incarnation,
                    delivery_id,
                    state,
                    ticket,
                },
                fresh,
                other,
                actions,
            );
            let there = link_under(c, channel, handle) matches Some(
                LinkView::Receiving(receiving),
            ) && receiving.incarnation == incarnation;
            &&& step.client == c
            &&& step.verdict is Continue
            &&& !there ==> step.actions == actions.push(
                promises::answered(ticket, ReplyView::Failed(EngineError::RemoteDetached)),
            )
            &&& there ==> step.actions == actions.push(
                promises::wrote(
                    channel,
                    PerformativeView::Disposition(
                        DispositionView {
                            role: Role::Receiver,
                            first: delivery_id,
                            last: None,
                            settled: true,
                            state: Some(state),
                            batchable: false,
                        },
                    ),
                ),
            ).push(promises::answered(ticket, ReplyView::Done))
        }),
{
}

/// A connection is closed in turn: the peer is told, and whoever asked is answered once
/// the peer has closed it too. Then it ends. A peer that closes first is answered.
pub proof fn connections_are_closed_in_turn(
    c: ClientView,
    ticket: u64,
    fresh: u64,
    other: u64,
    actions: Seq<ActionView>,
    channel: u16,
    answer: CloseView,
    later: Seq<ActionView>,
)
    ensures
        ({
            let asked = client::command_step(
                c,
                ClientCommandView::Close { ticket },
                fresh,
                other,
                actions,
            );
            let frame = promises::frame_on(channel, PerformativeView::Close(answer));
            let heard = client::frame_step(asked.client, frame, later);
            let first = client::frame_step(c, frame, later);
            let closing = promises::wrote(0, PerformativeView::Close(CloseView { error: None }));
            &&& asked.verdict is Continue
            &&& asked.actions == actions.push(closing)
            &&& heard.verdict is Ended
            &&& heard.actions == later.push(promises::answered(ticket, ReplyView::Done))
            &&& first.verdict is Ended
            &&& c.closing is None ==> first.actions == later.push(closing)
        }),
{
}

} // verus!
