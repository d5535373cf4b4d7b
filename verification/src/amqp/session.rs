//! Sessions, and what the frames that both ends of a connection take do to them.

use vstd::prelude::*;

use crate::amqp::entries;
use crate::amqp::entries::OrderedMap;
use crate::amqp::link;
use crate::amqp::link::{
    flush_sends, settle_range, stop_link, take_flow, take_transfer, Action, ActionView, EngineError,
    LinkState, LinkView, StateFault,
};
use crate::amqp::types::{
    DeliveryStateView, Disposition, DispositionView, Flow, FlowView, Outcome, Role, Transfer,
    TransferView,
};

verus! {

/// A session on a connection.
#[derive(Debug, PartialEq, Eq)]
pub struct SessionState {
    pub incarnation: u64,
    /// Whether the peer may attach links.
    pub accepts_links: bool,
    /// The links that the peer attached and nobody has accepted.
    pub pending_attaches: OrderedMap<u32, u64>,
    pub links: OrderedMap<u32, LinkState>,
    /// The last flow for each link that nobody has accepted.
    pub pending_flows: OrderedMap<u32, Flow>,
    pub next_outgoing_id: u32,
}

pub struct SessionView {
    pub incarnation: u64,
    pub accepts_links: bool,
    pub pending_attaches: Seq<(u32, u64)>,
    pub links: Seq<(u32, LinkView)>,
    pub pending_flows: Seq<(u32, FlowView)>,
    pub next_outgoing_id: u32,
}

impl DeepView for SessionState {
    type V = SessionView;

    open spec fn deep_view(&self) -> SessionView {
        SessionView {
            incarnation: self.incarnation,
            accepts_links: self.accepts_links,
            pending_attaches: self.pending_attaches.deep_view(),
            links: self.links.deep_view(),
            pending_flows: self.pending_flows.deep_view(),
            next_outgoing_id: self.next_outgoing_id,
        }
    }
}

pub open spec fn new_session(incarnation: u64) -> SessionView {
    SessionView {
        incarnation,
        accepts_links: true,
        pending_attaches: Seq::empty(),
        links: Seq::empty(),
        pending_flows: Seq::empty(),
        next_outgoing_id: 0,
    }
}

impl SessionState {
    pub fn new(incarnation: u64) -> (session: SessionState)
        ensures
            session.deep_view() == new_session(incarnation),
    {
        SessionState {
            incarnation,
            accepts_links: true,
            pending_attaches: OrderedMap::new(),
            links: OrderedMap::new(),
            pending_flows: OrderedMap::new(),
            next_outgoing_id: 0,
        }
    }
}

/// Sessions after a step, what there is to do, and what ended the connection.
pub struct Stepped {
    pub sessions: Seq<(u16, SessionView)>,
    pub actions: Seq<ActionView>,
    pub error: Option<EngineError>,
}

pub open spec fn ran(
    done: Result<(), EngineError>,
    sessions: Seq<(u16, SessionView)>,
    actions: Seq<ActionView>,
    step: Stepped,
) -> bool {
    &&& sessions == step.sessions
    &&& actions == step.actions
    &&& match done {
        Ok(_) => step.error is None,
        Err(error) => step.error == Some(error),
    }
}

pub open spec fn idle(sessions: Seq<(u16, SessionView)>, actions: Seq<ActionView>) -> Stepped {
    Stepped { sessions, actions, error: None }
}

pub open spec fn broken(
    sessions: Seq<(u16, SessionView)>,
    actions: Seq<ActionView>,
    fault: StateFault,
) -> Stepped {
    Stepped { sessions, actions, error: Some(EngineError::InvalidState(fault)) }
}

/// The link of a handle on a channel.
pub open spec fn link_at(
    sessions: Seq<(u16, SessionView)>,
    channel: u16,
    handle: u32,
) -> Option<LinkView> {
    match entries::looked_up(sessions, channel) {
        Some(session) => entries::looked_up(session.links, handle),
        None => None,
    }
}

/// Sessions in which a link has changed.
pub open spec fn with_link(
    sessions: Seq<(u16, SessionView)>,
    channel: u16,
    handle: u32,
    link: LinkView,
) -> Seq<(u16, SessionView)> {
    match entries::looked_up(sessions, channel) {
        Some(session) => entries::inserted(
            sessions,
            channel,
            SessionView { links: entries::inserted(session.links, handle, link), ..session },
        ),
        None => sessions,
    }
}

/// Sends what a link has queued, as far as there is credit.
pub open spec fn flush_step(
    sessions: Seq<(u16, SessionView)>,
    max_frame_size: u32,
    channel: u16,
    handle: u32,
    actions: Seq<ActionView>,
) -> Stepped {
    match link_at(sessions, channel, handle) {
        Some(LinkView::Sending(sending)) => {
            let session = entries::looked_up(sessions, channel)->0;
            let sent = link::flushed(
                channel,
                handle,
                max_frame_size,
                session.next_outgoing_id,
                sending,
                actions,
            );
            Stepped {
                sessions: entries::inserted(
                    sessions,
                    channel,
                    SessionView {
                        links: entries::inserted(
                            session.links,
                            handle,
                            LinkView::Sending(sent.link),
                        ),
                        next_outgoing_id: sent.next_id,
                        ..session
                    },
                ),
                actions: sent.actions,
                error: sent.error,
            }
        },
        _ => idle(sessions, actions),
    }
}

/// Takes a flow. One for a link that nobody has accepted is kept for it, and one
/// for no link, or a link that receives, is ignored.
pub open spec fn flow_step(
    sessions: Seq<(u16, SessionView)>,
    max_frame_size: u32,
    channel: u16,
    flow: FlowView,
    actions: Seq<ActionView>,
) -> Stepped {
    match (flow.handle, entries::looked_up(sessions, channel)) {
        (Some(handle), Some(session)) => match entries::looked_up(session.links, handle) {
            Some(LinkView::Sending(sending)) => {
                let (sending, actions) = link::flow_taken(sending, channel, handle, flow, actions);
                flush_step(
                    with_link(sessions, channel, handle, LinkView::Sending(sending)),
                    max_frame_size,
                    channel,
                    handle,
                    actions,
                )
            },
            Some(LinkView::Receiving(_)) => idle(sessions, actions),
            None => if entries::looked_up(session.pending_attaches, handle) is Some {
                idle(
                    entries::inserted(
                        sessions,
                        channel,
                        SessionView {
                            pending_flows: entries::inserted(session.pending_flows, handle, flow),
                            ..session
                        },
                    ),
                    actions,
                )
            } else {
                idle(sessions, actions)
            },
        },
        _ => idle(sessions, actions),
    }
}

/// Takes a transfer. One that comes late, for a link that is gone, is ignored:
/// it must not turn the end of a link into the end of the connection.
pub open spec fn transfer_step(
    sessions: Seq<(u16, SessionView)>,
    channel: u16,
    transfer: TransferView,
    payload: Seq<u8>,
    actions: Seq<ActionView>,
) -> Stepped {
    match entries::looked_up(sessions, channel) {
        None => broken(sessions, actions, StateFault::TransferOnUnknownSession),
        Some(session) => match entries::looked_up(session.links, transfer.handle) {
            None => idle(sessions, actions),
            Some(LinkView::Sending(_)) => broken(sessions, actions, StateFault::TransferToSender),
            Some(LinkView::Receiving(receiving)) => {
                let taken = link::received(receiving, transfer, payload, actions);
                Stepped {
                    sessions: with_link(
                        sessions,
                        channel,
                        transfer.handle,
                        LinkView::Receiving(taken.link),
                    ),
                    actions: taken.actions,
                    error: taken.error,
                }
            },
        },
    }
}

/// Links of which every sending one, from `i` on, has settled a range.
pub open spec fn settled_links(
    links: Seq<(u32, LinkView)>,
    i: int,
    first: u32,
    last: u32,
    outcome: DeliveryStateView,
    settled: bool,
    batchable: bool,
    actions: Seq<ActionView>,
) -> (Seq<(u32, LinkView)>, Seq<ActionView>)
    decreases links.len() - i,
{
    if i < 0 || i >= links.len() {
        (links, actions)
    } else {
        match links[i].1 {
            LinkView::Receiving(_) => settled_links(
                links,
                i + 1,
                first,
                last,
                outcome,
                settled,
                batchable,
                actions,
            ),
            LinkView::Sending(sending) => {
                let (sending, actions) = link::settled_range(
                    sending,
                    links[i].0,
                    first,
                    last,
                    outcome,
                    settled,
                    batchable,
                    actions,
                );
                settled_links(
                    links.update(i, (links[i].0, LinkView::Sending(sending))),
                    i + 1,
                    first,
                    last,
                    outcome,
                    settled,
                    batchable,
                    actions,
                )
            },
        }
    }
}

/// Takes a disposition. Only a receiver's final outcome settles anything.
pub open spec fn disposition_step(
    sessions: Seq<(u16, SessionView)>,
    channel: u16,
    disposition: DispositionView,
    actions: Seq<ActionView>,
) -> Stepped {
    let last = match disposition.last {
        Some(last) => last,
        None => disposition.first,
    };
    if disposition.role != Role::Receiver || disposition.state is None || disposition.state->0
        is Received || last < disposition.first {
        idle(sessions, actions)
    } else {
        match entries::looked_up(sessions, channel) {
            None => idle(sessions, actions),
            Some(session) => {
                let (links, actions) = settled_links(
                    session.links,
                    0,
                    disposition.first,
                    last,
                    disposition.state->0,
                    disposition.settled,
                    disposition.batchable,
                    actions,
                );
                idle(
                    entries::inserted(sessions, channel, SessionView { links, ..session }),
                    actions,
                )
            },
        }
    }
}

/// Stops every link from `i` on.
pub open spec fn stopped_links(
    links: Seq<(u32, LinkView)>,
    i: int,
    actions: Seq<ActionView>,
) -> Seq<ActionView>
    decreases links.len() - i,
{
    if i < 0 || i >= links.len() {
        actions
    } else {
        stopped_links(links, i + 1, link::stopped(links[i].1, actions))
    }
}

/// Stops every link of every session from `i` on.
pub open spec fn stopped_sessions(
    sessions: Seq<(u16, SessionView)>,
    i: int,
    actions: Seq<ActionView>,
) -> Seq<ActionView>
    decreases sessions.len() - i,
{
    if i < 0 || i >= sessions.len() {
        actions
    } else {
        stopped_sessions(sessions, i + 1, stopped_links(sessions[i].1.links, 0, actions))
    }
}

/// To put a link back where it is changes nothing.
pub proof fn same_link_changes_nothing(
    sessions: Seq<(u16, SessionView)>,
    channel: u16,
    handle: u32,
)
    ensures
        link_at(sessions, channel, handle) matches Some(link) ==> with_link(
            sessions,
            channel,
            handle,
            link,
        ) == sessions,
{
    entries::reinsertion_changes_nothing(sessions, channel);
    if let Some(session) = entries::looked_up(sessions, channel) {
        entries::reinsertion_changes_nothing(session.links, handle);
    }
}

/// Two changes of a value leave the second.
pub proof fn second_insertion_stands<K, V>(s: Seq<(K, V)>, key: K, one: V, other: V)
    ensures
        entries::inserted(entries::inserted(s, key, one), key, other) == entries::inserted(
            s,
            key,
            other,
        ),
        entries::looked_up(entries::inserted(s, key, one), key) == Some(one),
{
    entries::insertion_is_looked_up(s, key, one, key);
    let t = entries::inserted(s, key, one);
    entries::place_is_found(s, key, 0);
    entries::place_is_found(t, key, 0);
    let at = match entries::place(s, key, 0) {
        Some(i) => i,
        None => s.len() as int,
    };
    assert(t[at] == (key, one));
    assert(entries::place(t, key, 0) == Some(at)) by {
        let found = entries::place(t, key, 0)->Some_0;
        if found < at {
            assert(t[found] == s[found]);
        }
    }
    assert(entries::inserted(t, key, other) =~= entries::inserted(s, key, other));
}

pub fn flush_link(
    sessions: &mut OrderedMap<u16, SessionState>,
    max_frame_size: u32,
    channel: u16,
    handle: u32,
    actions: &mut Vec<Action>,
) -> (done: Result<(), EngineError>)
    ensures
        ran(
            done,
            final(sessions).deep_view(),
            final(actions).deep_view(),
            flush_step(
                old(sessions).deep_view(),
                max_frame_size,
                channel,
                handle,
                old(actions).deep_view(),
            ),
        ),
{
    proof {
        same_link_changes_nothing(sessions.deep_view(), channel, handle);
        entries::reinsertion_changes_nothing(sessions.deep_view(), channel);
    }
    match sessions.get_mut(&channel) {
        None => Ok(()),
        Some(session) => match session.links.get_mut(&handle) {
            Some(LinkState::Sending(sending)) => flush_sends(
                channel,
                handle,
                max_frame_size,
                &mut session.next_outgoing_id,
                sending,
                actions,
            ),
            _ => Ok(()),
        },
    }
}

/// Takes a flow.
pub fn apply_flow(
    sessions: &mut OrderedMap<u16, SessionState>,
    max_frame_size: u32,
    channel: u16,
    flow: Flow,
    actions: &mut Vec<Action>,
) -> (done: Result<(), EngineError>)
    ensures
        ran(
            done,
            final(sessions).deep_view(),
            final(actions).deep_view(),
            flow_step(
                old(sessions).deep_view(),
                max_frame_size,
                channel,
                flow.deep_view(),
                old(actions).deep_view(),
            ),
        ),
{
    let handle: u32 = match flow.handle {
        Some(handle) => handle,
        None => return Ok(()),
    };
    proof {
        same_link_changes_nothing(sessions.deep_view(), channel, handle);
        entries::reinsertion_changes_nothing(sessions.deep_view(), channel);
    }
    match sessions.get_mut(&channel) {
        None => return Ok(()),
        Some(session) => match session.links.get_mut(&handle) {
            Some(LinkState::Sending(sending)) => take_flow(
                sending,
                channel,
                handle,
                &flow,
                actions,
            ),
            Some(LinkState::Receiving(_)) => return Ok(()),
            None => {
                if session.pending_attaches.contains(&handle) {
                    session.pending_flows.insert(handle, flow);
                }
                return Ok(());
            },
        },
    }
    flush_link(sessions, max_frame_size, channel, handle, actions)
}

/// Takes a transfer.
pub fn receive_transfer(
    sessions: &mut OrderedMap<u16, SessionState>,
    channel: u16,
    transfer: Transfer,
    payload: Vec<u8>,
    actions: &mut Vec<Action>,
) -> (done: Result<(), EngineError>)
    ensures
        ran(
            done,
            final(sessions).deep_view(),
            final(actions).deep_view(),
            transfer_step(
                old(sessions).deep_view(),
                channel,
                transfer.deep_view(),
                payload@,
                old(actions).deep_view(),
            ),
        ),
{
    let handle: u32 = transfer.handle;
    proof {
        same_link_changes_nothing(sessions.deep_view(), channel, handle);
        entries::reinsertion_changes_nothing(sessions.deep_view(), channel);
    }
    match sessions.get_mut(&channel) {
        None => Err(EngineError::InvalidState(StateFault::TransferOnUnknownSession)),
        Some(session) => match session.links.get_mut(&handle) {
            None => Ok(()),
            Some(LinkState::Sending(_)) => Err(
                EngineError::InvalidState(StateFault::TransferToSender),
            ),
            Some(LinkState::Receiving(receiving)) => take_transfer(
                receiving,
                transfer,
                payload,
                actions,
            ),
        },
    }
}

#[verifier::loop_isolation(false)]
fn settle_links(
    links: &mut OrderedMap<u32, LinkState>,
    first: u32,
    last: u32,
    outcome: &Outcome,
    settled: bool,
    batchable: bool,
    actions: &mut Vec<Action>,
)
    ensures
        (final(links).deep_view(), final(actions).deep_view()) == settled_links(
            old(links).deep_view(),
            0,
            first,
            last,
            outcome.deep_view(),
            settled,
            batchable,
            old(actions).deep_view(),
        ),
{
    let ghost whole = settled_links(
        links.deep_view(),
        0,
        first,
        last,
        outcome.deep_view(),
        settled,
        batchable,
        actions.deep_view(),
    );
    let n: usize = links.len();
    let mut i: usize = 0;
    while i < n
        invariant
            i <= n == links.deep_view().len(),
            settled_links(
                links.deep_view(),
                i as int,
                first,
                last,
                outcome.deep_view(),
                settled,
                batchable,
                actions.deep_view(),
            ) == whole,
        decreases n - i,
    {
        let ghost before = links.deep_view();
        let handle: u32 = *links.entry(i).0;
        if let LinkState::Sending(sending) = links.value_mut(i) {
            settle_range(sending, handle, first, last, outcome, settled, batchable, actions);
        }
        proof {
            if before[i as int].1 is Receiving {
                assert(links.deep_view() =~= before);
            }
        }
        i = i + 1;
    }
}

/// Takes a disposition.
pub fn apply_disposition(
    sessions: &mut OrderedMap<u16, SessionState>,
    channel: u16,
    disposition: Disposition,
    actions: &mut Vec<Action>,
)
    ensures
        ran(
            Ok(()),
            final(sessions).deep_view(),
            final(actions).deep_view(),
            disposition_step(
                old(sessions).deep_view(),
                channel,
                disposition.deep_view(),
                old(actions).deep_view(),
            ),
        ),
{
    match disposition.role {
        Role::Receiver => {},
        Role::Sender => return ,
    }
    let state = match disposition.state {
        Some(state) => state,
        None => return ,
    };
    let outcome = match Outcome::try_from_state(state) {
        Ok(outcome) => outcome,
        Err(_) => return ,
    };
    let last: u32 = match disposition.last {
        Some(last) => last,
        None => disposition.first,
    };
    if last < disposition.first {
        return ;
    }
    if let Some(session) = sessions.get_mut(&channel) {
        settle_links(
            &mut session.links,
            disposition.first,
            last,
            &outcome,
            disposition.settled,
            disposition.batchable,
            actions,
        );
    }
}

/// Stops every link of a session.
#[verifier::loop_isolation(false)]
pub fn stop_links(session: &SessionState, actions: &mut Vec<Action>)
    ensures
        final(actions).deep_view() == stopped_links(
            session.deep_view().links,
            0,
            old(actions).deep_view(),
        ),
{
    let ghost links = session.deep_view().links;
    let ghost whole = stopped_links(links, 0, actions.deep_view());
    let n: usize = session.links.len();
    let mut i: usize = 0;
    while i < n
        invariant
            i <= n == links.len(),
            stopped_links(links, i as int, actions.deep_view()) == whole,
        decreases n - i,
    {
        let (_, stopping) = session.links.entry(i);
        stop_link(stopping, actions);
        i = i + 1;
    }
}

/// Stops every link of every session.
#[verifier::loop_isolation(false)]
pub fn stop_sessions(sessions: &OrderedMap<u16, SessionState>, actions: &mut Vec<Action>)
    ensures
        final(actions).deep_view() == stopped_sessions(
            sessions.deep_view(),
            0,
            old(actions).deep_view(),
        ),
{
    let ghost whole = stopped_sessions(sessions.deep_view(), 0, actions.deep_view());
    let n: usize = sessions.len();
    let mut i: usize = 0;
    while i < n
        invariant
            i <= n == sessions.deep_view().len(),
            stopped_sessions(sessions.deep_view(), i as int, actions.deep_view()) == whole,
        decreases n - i,
    {
        let (_, session) = sessions.entry(i);
        stop_links(session, actions);
        i = i + 1;
    }
}

} // verus!
