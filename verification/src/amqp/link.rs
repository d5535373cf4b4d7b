//! The state of links, and what flows over them.

use vstd::prelude::*;

use crate::amqp::entries;
use crate::amqp::entries::OrderedMap;
use crate::amqp::fault::CodecFault;
use crate::amqp::fields::Copied;
use crate::amqp::message;
use crate::amqp::message::{decode_message, encode_message};
use crate::amqp::types::{
    Accepted, Attach, AttachView, Begin, BeginView, DeliveryStateView, DeliveryTag, Flow, FlowView,
    Message, MessageView, Outcome, Performative, PerformativeView, ReceiverSettleMode, SaslCode,
    SenderSettleMode, Transfer, TransferView,
};
use crate::bytes;

verus! {

/// The window that sessions announce.
pub const SESSION_WINDOW: u32 = 2_048;

/// The credit that receiving links grant.
pub const LINK_CREDIT: u32 = 2_048;

/// What a transfer frame may take beside its payload.
pub const FRAME_OVERHEAD_RESERVE: u32 = 512;

/// How many deliveries a sender may have queued or unsettled.
pub const OUTGOING_DELIVERY_LIMIT: usize = 256;

// ---- errors ----------------------------------------------------------------

/// What is wrong with a connection or a request on it.
#[derive(Clone, Copy, Debug, PartialEq, Eq, Structural)]
pub enum StateFault {
    SaslAfterOpen,
    DuplicateChannel,
    AttachOnUnknownSession,
    HandleInUse,
    NoRemoteLinks,
    TransferOnUnknownSession,
    TransferToSender,
    FormatChanged,
    NoDeliveryId,
    MessageTooLarge,
    DuplicateOpen,
    SendOnReceiver,
    InvalidReservation,
    ForeignReservation,
    ReplacedReservation,
    ForeignDrain,
    ReplacedDrain,
    LiveReservations,
    QueuedDeliveries,
    ConfirmOnUnknownSession,
    ConfirmOnUnknownLink,
    SettleOnUnknownLink,
    AttachNotReceived,
    UnconfirmedOutcome,
    ExpectedSaslInit,
    ExpectedSaslMechanisms,
    ExpectedSaslOutcome,
    ExpectedOpen,
    /// The protocol ids that were expected and that came.
    ExpectedProtocol(u8, u8),
    MechanismNotOffered,
    /// What came is not what the handshake waits for.
    OutOfTurn,
    InvalidAddress,
    NoHost,
}

/// Why a request on a connection failed, or why the connection ended.
#[derive(Clone, Copy, Debug, PartialEq, Eq, Structural)]
pub enum EngineError {
    Codec(CodecFault),
    RemoteClosed,
    RemoteDetached,
    Stopped,
    InvalidState(StateFault),
    SaslAuthentication(SaslCode),
    /// This end did not accept the peer's credentials.
    PermissionDenied,
}

// ---- identities ------------------------------------------------------------

/// What names a delivery on its connection.
#[derive(Clone, Copy, Debug, PartialEq, Eq, Hash, Structural)]
pub struct DeliveryIdentity {
    pub channel: u16,
    pub handle: u32,
    pub delivery_id: u32,
}

impl DeliveryIdentity {
    pub fn channel(&self) -> (channel: u16)
        ensures
            channel == self.channel,
    {
        self.channel
    }

    pub fn handle(&self) -> (handle: u32)
        ensures
            handle == self.handle,
    {
        self.handle
    }

    pub fn delivery_id(&self) -> (id: u32)
        ensures
            id == self.delivery_id,
    {
        self.delivery_id
    }
}

/// A generation-bound request for a sender to return unused link credit after
/// observing that its message source is empty.
#[derive(Clone, Copy, Debug, PartialEq, Eq, Structural)]
pub struct DrainRequest {
    pub channel: u16,
    pub handle: u32,
    pub incarnation: u64,
    pub generation: u64,
}

/// What names one reserved unit of link credit.
#[derive(Clone, Copy, Debug, PartialEq, Eq, Hash, Structural)]
pub struct CreditReservationIdentity {
    pub channel: u16,
    pub handle: u32,
    pub incarnation: u64,
    pub reservation_id: u64,
}

/// A drain that the peer waits for, and the credit limit when it asked.
#[derive(Clone, Copy, Debug, PartialEq, Eq, Structural)]
pub struct PendingDrain {
    pub request: DrainRequest,
    pub credit_limit: u64,
}

#[derive(Clone, Copy, Debug, PartialEq, Eq, Structural)]
pub struct LinkDrain {
    pub current: Option<PendingDrain>,
    pub incarnation: u64,
    pub next_generation: u64,
}

impl LinkDrain {
    pub fn with_incarnation(incarnation: u64) -> (drain: LinkDrain)
        ensures
            drain == (LinkDrain { current: None, incarnation, next_generation: 0 }),
    {
        LinkDrain { current: None, incarnation, next_generation: 0 }
    }
}

/// The settlement confirmation that receiver settle mode `second` asks for.
#[derive(Clone, Copy, Debug, PartialEq, Eq, Structural)]
pub struct PendingConfirmation {
    pub handle: u32,
    pub incarnation: u64,
    pub delivery_id: u32,
    pub batchable: bool,
}

// ---- actions ---------------------------------------------------------------

/// What came in over a receiving link.
#[derive(Debug, PartialEq, Eq)]
pub struct Delivery {
    pub id: u32,
    pub settled: bool,
    pub message_format: u32,
    pub message: Message,
    pub encoded_message: Vec<u8>,
}

pub struct DeliveryView {
    pub id: u32,
    pub settled: bool,
    pub message_format: u32,
    pub message: MessageView,
    pub encoded_message: Seq<u8>,
}

impl DeepView for Delivery {
    type V = DeliveryView;

    open spec fn deep_view(&self) -> DeliveryView {
        DeliveryView {
            id: self.id,
            settled: self.settled,
            message_format: self.message_format,
            message: self.message.deep_view(),
            encoded_message: self.encoded_message@,
        }
    }
}

impl Delivery {
    pub fn message_format(&self) -> (format: u32)
        ensures
            format == self.deep_view().message_format,
    {
        self.message_format
    }

    pub fn message(&self) -> (message: &Message)
        ensures
            message.deep_view() == self.deep_view().message,
    {
        &self.message
    }

    pub fn encoded_message(&self) -> (octets: &[u8])
        ensures
            octets@ == self.deep_view().encoded_message,
    {
        self.encoded_message.as_slice()
    }
}

/// How a request is answered.
#[derive(Debug, PartialEq, Eq)]
pub enum Reply {
    Done,
    Failed(EngineError),
    /// A send that will not start.
    NotStarted(EngineError),
    Attached(u64),
    Reserved(Option<CreditReservationIdentity>),
    Started(DeliveryIdentity),
    Settled(Outcome, Option<PendingConfirmation>),
    /// A session that the peer has accepted.
    Begun(u16),
    /// A link that the peer has accepted, and how.
    Opened { handle: u32, incarnation: u64, attach: Attach },
}

pub enum ReplyView {
    Done,
    Failed(EngineError),
    NotStarted(EngineError),
    Attached(u64),
    Reserved(Option<CreditReservationIdentity>),
    Started(DeliveryIdentity),
    Settled(DeliveryStateView, Option<PendingConfirmation>),
    Begun(u16),
    Opened { handle: u32, incarnation: u64, attach: AttachView },
}

impl DeepView for Reply {
    type V = ReplyView;

    open spec fn deep_view(&self) -> ReplyView {
        match self {
            Reply::Done => ReplyView::Done,
            Reply::Failed(error) => ReplyView::Failed(*error),
            Reply::NotStarted(error) => ReplyView::NotStarted(*error),
            Reply::Attached(incarnation) => ReplyView::Attached(*incarnation),
            Reply::Reserved(reservation) => ReplyView::Reserved(*reservation),
            Reply::Started(identity) => ReplyView::Started(*identity),
            Reply::Settled(outcome, confirmation) => ReplyView::Settled(
                outcome.deep_view(),
                *confirmation,
            ),
            Reply::Begun(channel) => ReplyView::Begun(*channel),
            Reply::Opened { handle, incarnation, attach } => ReplyView::Opened {
                handle: *handle,
                incarnation: *incarnation,
                attach: attach.deep_view(),
            },
        }
    }
}

/// What a connection has to do. Requests are told apart by their tickets, and
/// links by their incarnations.
#[derive(Debug, PartialEq, Eq)]
pub enum Action {
    /// Write a frame.
    Write { channel: u16, performative: Performative, payload: Vec<u8> },
    /// Answer a request.
    Reply { ticket: u64, reply: Reply },
    /// Tell the application of a session that the peer began.
    Begun { channel: u16, incarnation: u64, begin: Begin },
    /// Tell a session of a link that the peer attached.
    Attached { session: u64, incarnation: u64, attach: Attach },
    /// Hand a delivery to a receiver.
    Deliver { link: u64, delivery: Delivery },
    /// Tell a link that it is detached.
    Detached { link: u64 },
    /// Tell a sender whether the peer wants its credit drained.
    Drain { link: u64, request: Option<DrainRequest> },
    /// Tell a sender whether there is credit.
    Credit { link: u64, ready: bool },
}

pub enum ActionView {
    Write { channel: u16, performative: PerformativeView, payload: Seq<u8> },
    Reply { ticket: u64, reply: ReplyView },
    Begun { channel: u16, incarnation: u64, begin: BeginView },
    Attached { session: u64, incarnation: u64, attach: AttachView },
    Deliver { link: u64, delivery: DeliveryView },
    Detached { link: u64 },
    Drain { link: u64, request: Option<DrainRequest> },
    Credit { link: u64, ready: bool },
}

impl DeepView for Action {
    type V = ActionView;

    open spec fn deep_view(&self) -> ActionView {
        match self {
            Action::Write { channel, performative, payload } => ActionView::Write {
                channel: *channel,
                performative: performative.deep_view(),
                payload: payload@,
            },
            Action::Reply { ticket, reply } => ActionView::Reply {
                ticket: *ticket,
                reply: reply.deep_view(),
            },
            Action::Begun { channel, incarnation, begin } => ActionView::Begun {
                channel: *channel,
                incarnation: *incarnation,
                begin: begin.deep_view(),
            },
            Action::Attached { session, incarnation, attach } => ActionView::Attached {
                session: *session,
                incarnation: *incarnation,
                attach: attach.deep_view(),
            },
            Action::Deliver { link, delivery } => ActionView::Deliver {
                link: *link,
                delivery: delivery.deep_view(),
            },
            Action::Detached { link } => ActionView::Detached { link: *link },
            Action::Drain { link, request } => ActionView::Drain { link: *link, request: *request },
            Action::Credit { link, ready } => ActionView::Credit { link: *link, ready: *ready },
        }
    }
}

/// Adds an action.
pub fn act(actions: &mut Vec<Action>, action: Action)
    ensures
        final(actions).deep_view() == old(actions).deep_view().push(action.deep_view()),
{
    let ghost before = actions.deep_view();
    let ghost last = action.deep_view();
    actions.push(action);
    proof {
        assert(actions.deep_view() =~= before.push(last));
    }
}

/// Adds the answer to a request.
pub fn answer(actions: &mut Vec<Action>, ticket: u64, reply: Reply)
    ensures
        final(actions).deep_view() == old(actions).deep_view().push(
            ActionView::Reply { ticket, reply: reply.deep_view() },
        ),
{
    act(actions, Action::Reply { ticket, reply });
}

/// Adds a frame without a payload.
pub fn send_frame(actions: &mut Vec<Action>, channel: u16, performative: Performative)
    ensures
        final(actions).deep_view() == old(actions).deep_view().push(
            written(channel, performative.deep_view()),
        ),
{
    let payload: Vec<u8> = Vec::new();
    proof {
        assert(payload@ =~= Seq::<u8>::empty());
    }
    act(actions, Action::Write { channel, performative, payload });
}

/// A frame without a payload.
pub open spec fn written(channel: u16, performative: PerformativeView) -> ActionView {
    ActionView::Write { channel, performative, payload: Seq::empty() }
}

pub open spec fn replied(ticket: u64, reply: ReplyView) -> ActionView {
    ActionView::Reply { ticket, reply }
}

// ---- links -----------------------------------------------------------------

/// A delivery that waits for credit.
#[derive(Debug, PartialEq, Eq)]
pub struct QueuedSend {
    pub message: Message,
    pub message_format: u32,
    pub delivery_tag: DeliveryTag,
    pub reservation: Option<CreditReservationIdentity>,
    pub ticket: u64,
}

pub struct QueuedView {
    pub message: MessageView,
    pub message_format: u32,
    pub delivery_tag: Seq<u8>,
    pub reservation: Option<CreditReservationIdentity>,
    pub ticket: u64,
}

impl DeepView for QueuedSend {
    type V = QueuedView;

    open spec fn deep_view(&self) -> QueuedView {
        QueuedView {
            message: self.message.deep_view(),
            message_format: self.message_format,
            delivery_tag: self.delivery_tag@,
            reservation: self.reservation,
            ticket: self.ticket,
        }
    }
}

/// A link that sends.
#[derive(Debug, PartialEq, Eq)]
pub struct SendingLink {
    pub receiver_settle_mode: ReceiverSettleMode,
    pub settle_mode: SenderSettleMode,
    pub delivery_count: u32,
    /// The delivery count up to which the peer granted credit.
    pub credit_limit: u64,
    pub queued: Vec<QueuedSend>,
    /// The tickets of what was sent and not settled, by delivery id.
    pub unsettled: OrderedMap<u32, u64>,
    pub drain: LinkDrain,
    /// Whether the sender was last told that there is credit.
    pub credit_ready: bool,
    pub credit_reservations: Vec<u64>,
    pub next_credit_reservation: u64,
}

pub struct SendingView {
    pub receiver_settle_mode: ReceiverSettleMode,
    pub settle_mode: SenderSettleMode,
    pub delivery_count: u32,
    pub credit_limit: u64,
    pub queued: Seq<QueuedView>,
    pub unsettled: Seq<(u32, u64)>,
    pub drain: LinkDrain,
    pub credit_ready: bool,
    pub credit_reservations: Seq<u64>,
    pub next_credit_reservation: u64,
}

impl DeepView for SendingLink {
    type V = SendingView;

    open spec fn deep_view(&self) -> SendingView {
        SendingView {
            receiver_settle_mode: self.receiver_settle_mode,
            settle_mode: self.settle_mode,
            delivery_count: self.delivery_count,
            credit_limit: self.credit_limit,
            queued: self.queued.deep_view(),
            unsettled: self.unsettled.deep_view(),
            drain: self.drain,
            credit_ready: self.credit_ready,
            credit_reservations: self.credit_reservations@,
            next_credit_reservation: self.next_credit_reservation,
        }
    }
}

pub open spec fn new_sending(
    snd: SenderSettleMode,
    rcv: ReceiverSettleMode,
    incarnation: u64,
) -> SendingView {
    SendingView {
        receiver_settle_mode: rcv,
        settle_mode: snd,
        delivery_count: 0,
        credit_limit: 0,
        queued: Seq::empty(),
        unsettled: Seq::empty(),
        drain: LinkDrain { current: None, incarnation, next_generation: 0 },
        credit_ready: false,
        credit_reservations: Seq::empty(),
        next_credit_reservation: 0,
    }
}

impl SendingLink {
    pub fn new(snd: SenderSettleMode, rcv: ReceiverSettleMode, incarnation: u64) -> (link:
        SendingLink)
        ensures
            link.deep_view() == new_sending(snd, rcv, incarnation),
    {
        let link = SendingLink {
            receiver_settle_mode: rcv,
            settle_mode: snd,
            delivery_count: 0,
            credit_limit: 0,
            queued: Vec::new(),
            unsettled: OrderedMap::new(),
            drain: LinkDrain::with_incarnation(incarnation),
            credit_ready: false,
            credit_reservations: Vec::new(),
            next_credit_reservation: 0,
        };
        proof {
            assert(link.queued.deep_view() =~= Seq::<QueuedView>::empty());
            assert(link.credit_reservations@ =~= Seq::<u64>::empty());
        }
        link
    }
}

/// What has come of a message that is sent in several transfers.
#[derive(Debug, PartialEq, Eq)]
pub struct PartialDelivery {
    pub id: u32,
    pub settled: bool,
    pub message_format: u32,
    pub bytes: Vec<u8>,
}

pub struct PartialView {
    pub id: u32,
    pub settled: bool,
    pub message_format: u32,
    pub bytes: Seq<u8>,
}

impl DeepView for PartialDelivery {
    type V = PartialView;

    open spec fn deep_view(&self) -> PartialView {
        PartialView {
            id: self.id,
            settled: self.settled,
            message_format: self.message_format,
            bytes: self.bytes@,
        }
    }
}

/// A link that receives.
#[derive(Debug, PartialEq, Eq)]
pub struct ReceivingLink {
    pub incarnation: u64,
    pub max_message_size: u64,
    pub partial: Option<PartialDelivery>,
}

pub struct ReceivingView {
    pub incarnation: u64,
    pub max_message_size: u64,
    pub partial: Option<PartialView>,
}

impl DeepView for ReceivingLink {
    type V = ReceivingView;

    open spec fn deep_view(&self) -> ReceivingView {
        ReceivingView {
            incarnation: self.incarnation,
            max_message_size: self.max_message_size,
            partial: self.partial.deep_view(),
        }
    }
}

/// A link.
#[derive(Debug, PartialEq, Eq)]
pub enum LinkState {
    Sending(SendingLink),
    Receiving(ReceivingLink),
}

pub enum LinkView {
    Sending(SendingView),
    Receiving(ReceivingView),
}

impl DeepView for LinkState {
    type V = LinkView;

    open spec fn deep_view(&self) -> LinkView {
        match self {
            LinkState::Sending(link) => LinkView::Sending(link.deep_view()),
            LinkState::Receiving(link) => LinkView::Receiving(link.deep_view()),
        }
    }
}

pub open spec fn link_incarnation(link: LinkView) -> u64 {
    match link {
        LinkView::Sending(link) => link.drain.incarnation,
        LinkView::Receiving(link) => link.incarnation,
    }
}

impl LinkState {
    pub fn incarnation(&self) -> (incarnation: u64)
        ensures
            incarnation == link_incarnation(self.deep_view()),
    {
        match self {
            LinkState::Sending(link) => link.drain.incarnation,
            LinkState::Receiving(link) => link.incarnation,
        }
    }
}

// ---- credit ----------------------------------------------------------------

/// Whether the peer granted credit that nobody has reserved or used.
pub open spec fn has_room(link: SendingView) -> bool {
    link.delivery_count + link.credit_reservations.len() < link.credit_limit
}

/// Whether a new delivery could be sent at once.
pub open spec fn unreserved_credit(link: SendingView) -> bool {
    link.queued.len() == 0 && has_room(link)
}

/// A link whose sender knows whether there is credit, and what tells it.
pub open spec fn published(link: SendingView, actions: Seq<ActionView>) -> (
    SendingView,
    Seq<ActionView>,
) {
    let ready = unreserved_credit(link);
    if link.credit_ready == ready {
        (link, actions)
    } else {
        (
            SendingView { credit_ready: ready, ..link },
            actions.push(ActionView::Credit { link: link.drain.incarnation, ready }),
        )
    }
}

/// The flow that answers a drain.
pub open spec fn drained_flow(handle: u32, delivery_count: u32, next_outgoing_id: u32) -> FlowView {
    FlowView {
        next_incoming_id: Some(0),
        incoming_window: SESSION_WINDOW,
        next_outgoing_id,
        outgoing_window: SESSION_WINDOW,
        handle: Some(handle),
        delivery_count: Some(delivery_count),
        link_credit: Some(0),
        available: None,
        drain: true,
        echo: false,
        properties: None,
    }
}

/// A drain with no credit left to return is answered by itself.
pub open spec fn zero_drained(
    channel: u16,
    handle: u32,
    next_id: u32,
    link: SendingView,
    actions: Seq<ActionView>,
) -> (SendingView, Seq<ActionView>) {
    match link.drain.current {
        None => (link, actions),
        Some(pending) => if link.credit_reservations.len() > 0 || link.delivery_count
            < pending.credit_limit {
            (link, actions)
        } else {
            (
                SendingView {
                    credit_limit: link.delivery_count as u64,
                    drain: LinkDrain { current: None, ..link.drain },
                    ..link
                },
                actions.push(
                    written(
                        channel,
                        PerformativeView::Flow(drained_flow(handle, link.delivery_count, next_id)),
                    ),
                ).push(ActionView::Drain { link: link.drain.incarnation, request: None }),
            )
        },
    }
}

fn has_room_for(link: &SendingLink) -> (yes: bool)
    ensures
        yes == has_room(link.deep_view()),
{
    let count: u64 = link.delivery_count as u64;
    let reserved: u64 = link.credit_reservations.len() as u64;
    count < link.credit_limit && reserved < link.credit_limit - count
}

pub(crate) fn has_unreserved_credit(link: &SendingLink) -> (yes: bool)
    ensures
        yes == unreserved_credit(link.deep_view()),
{
    link.queued.len() == 0 && has_room_for(link)
}

pub(crate) fn publish_credit(link: &mut SendingLink, actions: &mut Vec<Action>)
    ensures
        (final(link).deep_view(), final(actions).deep_view()) == published(
            old(link).deep_view(),
            old(actions).deep_view(),
        ),
{
    let ready: bool = has_unreserved_credit(link);
    if link.credit_ready != ready {
        link.credit_ready = ready;
        act(actions, Action::Credit { link: link.drain.incarnation, ready });
    }
}

fn make_drained_flow(handle: u32, delivery_count: u32, next_outgoing_id: u32) -> (flow: Flow)
    ensures
        flow.deep_view() == drained_flow(handle, delivery_count, next_outgoing_id),
{
    Flow {
        next_incoming_id: Some(0),
        incoming_window: SESSION_WINDOW,
        next_outgoing_id,
        outgoing_window: SESSION_WINDOW,
        handle: Some(handle),
        delivery_count: Some(delivery_count),
        link_credit: Some(0),
        available: None,
        drain: true,
        echo: false,
        properties: None,
    }
}

pub(crate) fn complete_zero_credit_drain(
    channel: u16,
    handle: u32,
    next_id: u32,
    link: &mut SendingLink,
    actions: &mut Vec<Action>,
)
    ensures
        (final(link).deep_view(), final(actions).deep_view()) == zero_drained(
            channel,
            handle,
            next_id,
            old(link).deep_view(),
            old(actions).deep_view(),
        ),
{
    let pending = match link.drain.current {
        None => return ,
        Some(pending) => pending,
    };
    if link.credit_reservations.len() > 0 || (link.delivery_count as u64) < pending.credit_limit {
        return ;
    }
    let count: u32 = link.delivery_count;
    send_frame(actions, channel, Performative::Flow(make_drained_flow(handle, count, next_id)));
    link.credit_limit = count as u64;
    link.drain.current = None;
    act(actions, Action::Drain { link: link.drain.incarnation, request: None });
}

// ---- sending ---------------------------------------------------------------

/// How much payload a transfer may carry.
pub open spec fn chunk_size(max_frame_size: u32) -> nat {
    if max_frame_size <= FRAME_OVERHEAD_RESERVE {
        1
    } else {
        (max_frame_size - FRAME_OVERHEAD_RESERVE) as nat
    }
}

/// One transfer of a delivery. Only the first tells what is delivered.
pub open spec fn transfer_part(
    identity: DeliveryIdentity,
    tag: Seq<u8>,
    format: u32,
    settled: bool,
    first: bool,
    more: bool,
) -> TransferView {
    TransferView {
        handle: identity.handle,
        delivery_id: if first {
            Some(identity.delivery_id)
        } else {
            None
        },
        delivery_tag: if first {
            Some(tag)
        } else {
            None
        },
        message_format: if first {
            Some(format)
        } else {
            None
        },
        settled: if first {
            Some(settled)
        } else {
            None
        },
        more,
        rcv_settle_mode: None,
        state: None,
        resume: false,
        aborted: false,
        batchable: false,
    }
}

/// The transfers of what is left of a payload from `at` on.
pub open spec fn transferred(
    identity: DeliveryIdentity,
    tag: Seq<u8>,
    format: u32,
    settled: bool,
    payload: Seq<u8>,
    size: nat,
    at: int,
    actions: Seq<ActionView>,
) -> Seq<ActionView>
    decreases payload.len() - at,
{
    if at < 0 || at > payload.len() || size == 0 {
        actions
    } else {
        let end = if payload.len() - at < size {
            payload.len() as int
        } else {
            at + size
        };
        let more = end < payload.len();
        let next = actions.push(
            ActionView::Write {
                channel: identity.channel,
                performative: PerformativeView::Transfer(
                    transfer_part(identity, tag, format, settled, at == 0, more),
                ),
                payload: payload.subrange(at, end),
            },
        );
        if more {
            transferred(identity, tag, format, settled, payload, size, end, next)
        } else {
            next
        }
    }
}

pub open spec fn position(s: Seq<u64>, id: u64, i: int) -> Option<int>
    decreases s.len() - i,
{
    if i < 0 || i >= s.len() {
        None
    } else if s[i] == id {
        Some(i)
    } else {
        position(s, id, i + 1)
    }
}

/// Numbers without the first that is `id`.
pub open spec fn without(s: Seq<u64>, id: u64) -> Seq<u64> {
    match position(s, id, 0) {
        Some(i) => s.remove(i),
        None => s,
    }
}

proof fn position_is_found(s: Seq<u64>, id: u64, i: int)
    requires
        0 <= i,
    ensures
        match position(s, id, i) {
            Some(j) => i <= j < s.len() && s[j] == id,
            None => forall|k: int| i <= k < s.len() ==> s[k] != id,
        },
    decreases s.len() - i,
{
    if i < s.len() && s[i] != id {
        position_is_found(s, id, i + 1);
    }
}

/// A link from which the first delivery was taken to be sent, and its
/// reservation used up.
pub open spec fn taken_from(link: SendingView) -> SendingView {
    let first = link.queued[0];
    let reservations = match first.reservation {
        Some(reservation) => if reservation.incarnation == link.drain.incarnation {
            without(link.credit_reservations, reservation.reservation_id)
        } else {
            link.credit_reservations
        },
        None => link.credit_reservations,
    };
    SendingView {
        queued: link.queued.skip(1),
        credit_reservations: reservations,
        delivery_count: link.delivery_count.wrapping_add(1),
        ..link
    }
}

/// A link that has sent what it can.
pub struct Flushed {
    pub link: SendingView,
    pub next_id: u32,
    pub actions: Seq<ActionView>,
    pub error: Option<EngineError>,
}

/// Sends what is queued, as far as there is credit. A reserved delivery is sent
/// with the credit that it has reserved, whatever the limit is now.
pub open spec fn flushed(
    channel: u16,
    handle: u32,
    max_frame_size: u32,
    next_id: u32,
    link: SendingView,
    actions: Seq<ActionView>,
) -> Flushed
    decreases link.queued.len(),
{
    let reserved = link.queued.len() > 0 && link.queued[0].reservation is Some;
    if !reserved && !has_room(link) {
        let (link, actions) = published(link, actions);
        let (link, actions) = zero_drained(channel, handle, next_id, link, actions);
        Flushed { link, next_id, actions, error: None }
    } else if link.queued.len() == 0 {
        let (link, actions) = published(link, actions);
        Flushed { link, next_id, actions, error: None }
    } else {
        let first = link.queued[0];
        let identity = DeliveryIdentity { channel, handle, delivery_id: next_id };
        let after = taken_from(link);
        let following = next_id.wrapping_add(1);
        match message::message_octets(first.message) {
            Err(fault) => Flushed {
                link: after,
                next_id: following,
                actions,
                error: Some(EngineError::Codec(fault)),
            },
            Ok(payload) => {
                let settled = link.settle_mode == SenderSettleMode::Settled;
                let sent = transferred(
                    identity,
                    first.delivery_tag,
                    first.message_format,
                    settled,
                    payload,
                    chunk_size(max_frame_size),
                    0,
                    actions,
                ).push(replied(first.ticket, ReplyView::Started(identity)));
                if settled {
                    flushed(
                        channel,
                        handle,
                        max_frame_size,
                        following,
                        after,
                        sent.push(
                            replied(
                                first.ticket,
                                ReplyView::Settled(DeliveryStateView::Accepted, None),
                            ),
                        ),
                    )
                } else {
                    flushed(
                        channel,
                        handle,
                        max_frame_size,
                        following,
                        SendingView {
                            unsettled: entries::inserted(after.unsettled, next_id, first.ticket),
                            ..after
                        },
                        sent,
                    )
                }
            },
        }
    }
}

#[verifier::loop_isolation(false)]
fn write_transfer(
    identity: DeliveryIdentity,
    tag: DeliveryTag,
    format: u32,
    settled: bool,
    payload: &[u8],
    max_frame_size: u32,
    actions: &mut Vec<Action>,
)
    ensures
        final(actions).deep_view() == transferred(
            identity,
            tag@,
            format,
            settled,
            payload@,
            chunk_size(max_frame_size),
            0,
            old(actions).deep_view(),
        ),
{
    let size: usize = if max_frame_size <= FRAME_OVERHEAD_RESERVE {
        1
    } else {
        (max_frame_size - FRAME_OVERHEAD_RESERVE) as usize
    };
    let total: usize = payload.len();
    let ghost tag_view = tag@;
    let ghost whole = transferred(
        identity,
        tag@,
        format,
        settled,
        payload@,
        size as nat,
        0,
        actions.deep_view(),
    );
    let mut at: usize = 0;
    let mut more: bool = true;
    while more
        invariant
            at <= total == payload@.len(),
            more ==> transferred(
                identity,
                tag_view,
                format,
                settled,
                payload@,
                size as nat,
                at as int,
                actions.deep_view(),
            ) == whole,
            !more ==> actions.deep_view() == whole,
            more && at > 0 ==> at < total,
        decreases
                (total - at) + if more {
                    1int
                } else {
                    0int
                },
    {
        let room: usize = total - at;
        let end: usize = if room < size {
            total
        } else {
            at + size
        };
        let first: bool = at == 0;
        let chunk = bytes::copy_bytes(vstd::slice::slice_subrange(payload, at, end));
        more = end < total;
        let delivery_tag: Option<DeliveryTag> = if first {
            let copy = tag.copied();
            proof {
                assert(copy.deep_view() =~= tag_view);
                assert(tag.deep_view() =~= tag_view);
            }
            Some(copy)
        } else {
            None
        };
        let transfer = Transfer {
            handle: identity.handle,
            delivery_id: if first {
                Some(identity.delivery_id)
            } else {
                None
            },
            delivery_tag,
            message_format: if first {
                Some(format)
            } else {
                None
            },
            settled: if first {
                Some(settled)
            } else {
                None
            },
            more,
            rcv_settle_mode: None,
            state: None,
            resume: false,
            aborted: false,
            batchable: false,
        };
        proof {
            assert(transfer.deep_view() == transfer_part(
                identity,
                tag_view,
                format,
                settled,
                first,
                more,
            ));
        }
        act(
            actions,
            Action::Write {
                channel: identity.channel,
                performative: Performative::Transfer(transfer),
                payload: chunk,
            },
        );
        at = end;
    }
}

#[verifier::loop_isolation(false)]
fn forget(ids: &mut Vec<u64>, id: u64) -> (removed: bool)
    ensures
        final(ids)@ == without(old(ids)@, id),
        removed == position(old(ids)@, id, 0) is Some,
{
    let ghost s = ids@;
    let mut i: usize = 0;
    while i < ids.len()
        invariant
            i <= ids@.len(),
            ids@ == s,
            position(s, id, 0) == position(s, id, i as int),
        decreases ids@.len() - i,
    {
        if ids[i] == id {
            ids.remove(i);
            return true;
        }
        i = i + 1;
    }
    false
}

fn holds(ids: &Vec<u64>, id: u64) -> (yes: bool)
    ensures
        yes == ids@.contains(id),
{
    let mut i: usize = 0;
    while i < ids.len()
        invariant
            i <= ids@.len(),
            forall|k: int| 0 <= k < i ==> ids@[k] != id,
        decreases ids@.len() - i,
    {
        if ids[i] == id {
            return true;
        }
        i = i + 1;
    }
    false
}

pub(crate) fn holds_reservation(link: &SendingLink, id: u64) -> (yes: bool)
    ensures
        yes == link.deep_view().credit_reservations.contains(id),
{
    holds(&link.credit_reservations, id)
}

pub(crate) fn forget_reservation(link: &mut SendingLink, id: u64)
    ensures
        final(link).deep_view() == (SendingView {
            credit_reservations: without(old(link).deep_view().credit_reservations, id),
            ..old(link).deep_view()
        }),
{
    let _ = forget(&mut link.credit_reservations, id);
}

/// Sends what is queued, as far as there is credit.
#[verifier::loop_isolation(false)]
pub fn flush_sends(
    channel: u16,
    handle: u32,
    max_frame_size: u32,
    next_id: &mut u32,
    link: &mut SendingLink,
    actions: &mut Vec<Action>,
) -> (done: Result<(), EngineError>)
    ensures
        ({
            let sent = flushed(
                channel,
                handle,
                max_frame_size,
                *old(next_id),
                old(link).deep_view(),
                old(actions).deep_view(),
            );
            &&& final(link).deep_view() == sent.link
            &&& *final(next_id) == sent.next_id
            &&& final(actions).deep_view() == sent.actions
            &&& match done {
                Ok(_) => sent.error is None,
                Err(error) => sent.error == Some(error),
            }
        }),
{
    let ghost whole = flushed(
        channel,
        handle,
        max_frame_size,
        *next_id,
        link.deep_view(),
        actions.deep_view(),
    );
    loop
        invariant
            flushed(
                channel,
                handle,
                max_frame_size,
                *next_id,
                link.deep_view(),
                actions.deep_view(),
            ) == whole,
        decreases link.queued@.len(),
    {
        let reserved: bool = link.queued.len() > 0 && link.queued[0].reservation.is_some();
        if !reserved && !has_room_for(link) {
            publish_credit(link, actions);
            complete_zero_credit_drain(channel, handle, *next_id, link, actions);
            return Ok(());
        }
        if link.queued.len() == 0 {
            publish_credit(link, actions);
            return Ok(());
        }
        let ghost before = link.deep_view();
        let first = link.queued.remove(0);
        proof {
            assert(link.queued.deep_view() =~= before.queued.skip(1));
        }
        if let Some(reservation) = first.reservation {
            if reservation.incarnation == link.drain.incarnation {
                let _ = forget(&mut link.credit_reservations, reservation.reservation_id);
            }
        }
        let identity = DeliveryIdentity { channel, handle, delivery_id: *next_id };
        *next_id = next_id.wrapping_add(1);
        link.delivery_count = link.delivery_count.wrapping_add(1);
        proof {
            assert(link.deep_view() == taken_from(before));
        }
        let settled: bool = match link.settle_mode {
            SenderSettleMode::Settled => true,
            _ => false,
        };
        let payload = match encode_message(&first.message) {
            Ok(payload) => payload,
            Err(fault) => return Err(EngineError::Codec(fault)),
        };
        write_transfer(
            identity,
            first.delivery_tag,
            first.message_format,
            settled,
            payload.as_slice(),
            max_frame_size,
            actions,
        );
        answer(actions, first.ticket, Reply::Started(identity));
        if settled {
            answer(actions, first.ticket, Reply::Settled(Outcome::Accepted(Accepted), None));
        } else {
            link.unsettled.insert(identity.delivery_id, first.ticket);
        }
    }
}

// ---- receiving -------------------------------------------------------------

/// A link that has taken a transfer.
pub struct Received {
    pub link: ReceivingView,
    pub actions: Seq<ActionView>,
    pub error: Option<EngineError>,
}

/// Takes a transfer. A message may come in several, of which only the first
/// tells its delivery id and, unless they repeat it, its format. A message that
/// is complete is delivered with the octets that it came in.
pub open spec fn received(
    link: ReceivingView,
    transfer: TransferView,
    payload: Seq<u8>,
    actions: Seq<ActionView>,
) -> Received {
    let format = match (transfer.message_format, link.partial) {
        (Some(format), _) => format,
        (None, Some(partial)) => partial.message_format,
        (None, None) => 0,
    };
    let cleared = ReceivingView { partial: None, ..link };
    if link.partial is Some && format != link.partial->0.message_format {
        Received {
            link,
            actions,
            error: Some(EngineError::InvalidState(StateFault::FormatChanged)),
        }
    } else if transfer.aborted {
        Received { link: cleared, actions, error: None }
    } else if link.partial is None && transfer.delivery_id is None {
        Received { link, actions, error: Some(EngineError::InvalidState(StateFault::NoDeliveryId)) }
    } else {
        let partial = match link.partial {
            Some(partial) => PartialView { bytes: partial.bytes + payload, ..partial },
            None => PartialView {
                id: transfer.delivery_id->0,
                settled: match transfer.settled {
                    Some(settled) => settled,
                    None => false,
                },
                message_format: format,
                bytes: payload,
            },
        };
        if partial.bytes.len() > link.max_message_size {
            Received {
                link: cleared,
                actions,
                error: Some(EngineError::InvalidState(StateFault::MessageTooLarge)),
            }
        } else if transfer.more {
            Received {
                link: ReceivingView { partial: Some(partial), ..link },
                actions,
                error: None,
            }
        } else {
            match message::message_of(partial.bytes) {
                Err(fault) => Received {
                    link: cleared,
                    actions,
                    error: Some(EngineError::Codec(fault)),
                },
                Ok(message) => Received {
                    link: cleared,
                    actions: actions.push(
                        ActionView::Deliver {
                            link: link.incarnation,
                            delivery: DeliveryView {
                                id: partial.id,
                                settled: partial.settled,
                                message_format: partial.message_format,
                                message,
                                encoded_message: partial.bytes,
                            },
                        },
                    ),
                    error: None,
                },
            }
        }
    }
}

/// Takes a transfer.
pub fn take_transfer(
    link: &mut ReceivingLink,
    transfer: Transfer,
    payload: Vec<u8>,
    actions: &mut Vec<Action>,
) -> (done: Result<(), EngineError>)
    ensures
        ({
            let taken = received(
                old(link).deep_view(),
                transfer.deep_view(),
                payload@,
                old(actions).deep_view(),
            );
            &&& final(link).deep_view() == taken.link
            &&& final(actions).deep_view() == taken.actions
            &&& match done {
                Ok(_) => taken.error is None,
                Err(error) => taken.error == Some(error),
            }
        }),
{
    let format: u32 = match (&transfer.message_format, &link.partial) {
        (Some(format), _) => *format,
        (None, Some(partial)) => partial.message_format,
        (None, None) => 0,
    };
    if let Some(partial) = &link.partial {
        if format != partial.message_format {
            return Err(EngineError::InvalidState(StateFault::FormatChanged));
        }
    }
    if transfer.aborted {
        link.partial = None;
        return Ok(());
    }
    let mut taken: Option<PartialDelivery> = None;
    std::mem::swap(&mut taken, &mut link.partial);
    let partial = match taken {
        Some(partial) => {
            let mut partial = partial;
            bytes::append(&mut partial.bytes, payload.as_slice());
            partial
        },
        None => {
            let id: u32 = match transfer.delivery_id {
                Some(id) => id,
                None => return Err(EngineError::InvalidState(StateFault::NoDeliveryId)),
            };
            PartialDelivery {
                id,
                settled: match transfer.settled {
                    Some(settled) => settled,
                    None => false,
                },
                message_format: format,
                bytes: payload,
            }
        },
    };
    if partial.bytes.len() as u64 > link.max_message_size {
        return Err(EngineError::InvalidState(StateFault::MessageTooLarge));
    }
    if transfer.more {
        link.partial = Some(partial);
        return Ok(());
    }
    let message = match decode_message(partial.bytes.as_slice()) {
        Ok(message) => message,
        Err(fault) => return Err(EngineError::Codec(fault)),
    };
    act(
        actions,
        Action::Deliver {
            link: link.incarnation,
            delivery: Delivery {
                id: partial.id,
                settled: partial.settled,
                message_format: partial.message_format,
                message,
                encoded_message: partial.bytes,
            },
        },
    );
    Ok(())
}

// ---- reservations ----------------------------------------------------------

/// The first number from `candidate` on, wrapping around, that is not in use.
pub open spec fn free_id(s: Seq<u64>, candidate: u64, tries: nat) -> u64
    decreases tries,
{
    if tries == 0 || !s.contains(candidate) {
        candidate
    } else {
        free_id(s, candidate.wrapping_add(1), (tries - 1) as nat)
    }
}

/// Reserves credit for one delivery, if there is any.
pub open spec fn reserved(
    link: SendingView,
    channel: u16,
    handle: u32,
    ticket: u64,
    actions: Seq<ActionView>,
) -> (SendingView, Seq<ActionView>) {
    if !unreserved_credit(link) {
        let (link, actions) = published(link, actions);
        (link, actions.push(replied(ticket, ReplyView::Reserved(None))))
    } else {
        let id = free_id(
            link.credit_reservations,
            link.next_credit_reservation,
            link.credit_reservations.len(),
        );
        let identity = CreditReservationIdentity {
            channel,
            handle,
            incarnation: link.drain.incarnation,
            reservation_id: id,
        };
        let (link, actions) = published(
            SendingView {
                credit_reservations: link.credit_reservations.push(id),
                next_credit_reservation: id.wrapping_add(1),
                ..link
            },
            actions,
        );
        (link, actions.push(replied(ticket, ReplyView::Reserved(Some(identity)))))
    }
}

/// Of more numbers than are in use, one is free.
proof fn tried_are_few(s: Seq<u64>, tried: Set<u64>)
    requires
        tried.finite(),
        forall|id: u64| #[trigger] tried.contains(id) ==> s.contains(id),
    ensures
        tried.len() <= s.len(),
{
    s.lemma_cardinality_of_set();
    assert(tried.subset_of(s.to_set()));
    vstd::set_lib::lemma_len_subset(tried, s.to_set());
}

/// The `j`-th number after `x`, wrapping around.
spec fn nth(x: u64, j: int) -> u64 {
    ((x + j) % 0x1_0000_0000_0000_0000) as u64
}

proof fn nth_differ(x: u64, i: int, j: int)
    requires
        0 <= i < j <= usize::MAX,
    ensures
        nth(x, i) != nth(x, j),
{
    let m = 0x1_0000_0000_0000_0000int;
    let a = x + i;
    let b = x + j;
    assert(0 < b - a < m);
    assert(a % m != b % m) by (nonlinear_arith)
        requires
            0 < b - a < m,
            m == 0x1_0000_0000_0000_0000int,
            a >= 0,
    ;
}

/// Trying one number more than are in use finds one that is free.
pub proof fn a_number_is_free(s: Seq<u64>, candidate: u64, tries: nat)
    requires
        s.len() <= usize::MAX,
        tries == s.len(),
    ensures
        !s.contains(free_id(s, candidate, tries)),
{
    trying_finds_a_free_number(s, candidate, 0, tries, Set::empty());
}

/// What was tried so far are the `k` numbers from `first` on, all in use.
proof fn trying_finds_a_free_number(
    s: Seq<u64>,
    first: u64,
    k: int,
    tries: nat,
    tried: Set<u64>,
)
    requires
        s.len() <= usize::MAX,
        0 <= k,
        k + tries == s.len(),
        tried.finite(),
        tried.len() == k,
        forall|id: u64| #[trigger] tried.contains(id) ==> s.contains(id),
        forall|id: u64|
            #[trigger] tried.contains(id) <==> exists|j: int|
                0 <= j < k && id == (#[trigger] nth(first, j)),
    ensures
        !s.contains(free_id(s, nth(first, k), tries)),
    decreases tries,
{
    let candidate = nth(first, k);
    if s.contains(candidate) {
        assert(!tried.contains(candidate)) by {
            if tried.contains(candidate) {
                let j = choose|j: int| 0 <= j < k && candidate == (#[trigger] nth(first, j));
                nth_differ(first, j, k);
            }
        }
        let longer = tried.insert(candidate);
        assert forall|id: u64| #[trigger] longer.contains(id) implies s.contains(id) by {
            if id != candidate {
                assert(tried.contains(id));
            }
        }
        tried_are_few(s, longer);
        assert forall|id: u64|
            #[trigger] longer.contains(id) <==> exists|j: int|
                0 <= j < k + 1 && id == (#[trigger] nth(first, j)) by {
            if longer.contains(id) {
                if id == candidate {
                    assert(nth(first, k) == id);
                } else {
                    assert(tried.contains(id));
                    let j = choose|j: int| 0 <= j < k && id == (#[trigger] nth(first, j));
                    assert(0 <= j < k + 1 && id == nth(first, j));
                }
            } else if exists|j: int| 0 <= j < k + 1 && id == (#[trigger] nth(first, j)) {
                let j = choose|j: int| 0 <= j < k + 1 && id == (#[trigger] nth(first, j));
                if j < k {
                    assert(tried.contains(id));
                }
            }
        }
        assert(candidate.wrapping_add(1) == nth(first, k + 1));
        trying_finds_a_free_number(s, first, k + 1, (tries - 1) as nat, longer);
    }
}

/// A free number, which is given back in no reservation.
#[verifier::loop_isolation(false)]
fn free_reservation(ids: &Vec<u64>, next: u64) -> (id: u64)
    ensures
        id == free_id(ids@, next, ids@.len()),
        !ids@.contains(id),
{
    let ghost whole = free_id(ids@, next, ids@.len());
    let mut candidate: u64 = next;
    let mut tries: usize = ids.len();
    proof {
        a_number_is_free(ids@, next, ids@.len());
    }
    while holds(ids, candidate)
        invariant
            free_id(ids@, candidate, tries as nat) == whole,
        decreases tries,
    {
        candidate = candidate.wrapping_add(1);
        tries = tries - 1;
    }
    candidate
}

/// Reserves credit for one delivery.
pub(crate) fn reserve_credit(
    link: &mut SendingLink,
    channel: u16,
    handle: u32,
    ticket: u64,
    actions: &mut Vec<Action>,
)
    ensures
        (final(link).deep_view(), final(actions).deep_view()) == reserved(
            old(link).deep_view(),
            channel,
            handle,
            ticket,
            old(actions).deep_view(),
        ),
{
    if !has_unreserved_credit(link) {
        publish_credit(link, actions);
        answer(actions, ticket, Reply::Reserved(None));
        return ;
    }
    let id: u64 = free_reservation(&link.credit_reservations, link.next_credit_reservation);
    link.next_credit_reservation = id.wrapping_add(1);
    link.credit_reservations.push(id);
    let identity = CreditReservationIdentity {
        channel,
        handle,
        incarnation: link.drain.incarnation,
        reservation_id: id,
    };
    publish_credit(link, actions);
    answer(actions, ticket, Reply::Reserved(Some(identity)));
}

// ---- drains and flows ------------------------------------------------------

/// Returns unused credit for the drain that is asked for now. An older request
/// is answered as done, and one of an earlier link is refused.
pub open spec fn drain_acknowledged(
    link: SendingView,
    request: DrainRequest,
    next_id: u32,
    ticket: u64,
    actions: Seq<ActionView>,
) -> (SendingView, Seq<ActionView>) {
    if request.incarnation != link.drain.incarnation {
        (
            link,
            actions.push(
                replied(
                    ticket,
                    ReplyView::Failed(EngineError::InvalidState(StateFault::ReplacedDrain)),
                ),
            ),
        )
    } else if link.drain.current is None || link.drain.current->0.request != request {
        (link, actions.push(replied(ticket, ReplyView::Done)))
    } else if link.credit_reservations.len() > 0 {
        (
            link,
            actions.push(
                replied(
                    ticket,
                    ReplyView::Failed(EngineError::InvalidState(StateFault::LiveReservations)),
                ),
            ),
        )
    } else {
        let limit = link.drain.current->0.credit_limit;
        if link.queued.len() > 0 && link.delivery_count < limit {
            (
                link,
                actions.push(
                    replied(
                        ticket,
                        ReplyView::Failed(EngineError::InvalidState(StateFault::QueuedDeliveries)),
                    ),
                ),
            )
        } else {
            let count = if limit > link.delivery_count {
                limit as u32
            } else {
                link.delivery_count
            };
            let noted = actions.push(
                written(
                    request.channel,
                    PerformativeView::Flow(drained_flow(request.handle, count, next_id)),
                ),
            ).push(ActionView::Drain { link: link.drain.incarnation, request: None });
            let told = if link.credit_ready {
                noted.push(ActionView::Credit { link: link.drain.incarnation, ready: false })
            } else {
                noted
            };
            (
                SendingView {
                    delivery_count: count,
                    credit_limit: count as u64,
                    drain: LinkDrain { current: None, ..link.drain },
                    credit_ready: false,
                    ..link
                },
                told.push(replied(ticket, ReplyView::Done)),
            )
        }
    }
}

pub(crate) fn acknowledge_drain(
    link: &mut SendingLink,
    request: DrainRequest,
    next_id: u32,
    ticket: u64,
    actions: &mut Vec<Action>,
)
    ensures
        (final(link).deep_view(), final(actions).deep_view()) == drain_acknowledged(
            old(link).deep_view(),
            request,
            next_id,
            ticket,
            old(actions).deep_view(),
        ),
{
    if request.incarnation != link.drain.incarnation {
        answer(
            actions,
            ticket,
            Reply::Failed(EngineError::InvalidState(StateFault::ReplacedDrain)),
        );
        return ;
    }
    let pending = match link.drain.current {
        Some(pending) => pending,
        None => {
            answer(actions, ticket, Reply::Done);
            return ;
        },
    };
    if pending.request != request {
        answer(actions, ticket, Reply::Done);
        return ;
    }
    if link.credit_reservations.len() > 0 {
        answer(
            actions,
            ticket,
            Reply::Failed(EngineError::InvalidState(StateFault::LiveReservations)),
        );
        return ;
    }
    if link.queued.len() > 0 && (link.delivery_count as u64) < pending.credit_limit {
        answer(
            actions,
            ticket,
            Reply::Failed(EngineError::InvalidState(StateFault::QueuedDeliveries)),
        );
        return ;
    }
    let count: u32 = if pending.credit_limit > link.delivery_count as u64 {
        #[verifier::truncate] (pending.credit_limit as u32)
    } else {
        link.delivery_count
    };
    send_frame(
        actions,
        request.channel,
        Performative::Flow(make_drained_flow(request.handle, count, next_id)),
    );
    link.delivery_count = count;
    link.credit_limit = count as u64;
    link.drain.current = None;
    act(actions, Action::Drain { link: link.drain.incarnation, request: None });
    if link.credit_ready {
        link.credit_ready = false;
        act(actions, Action::Credit { link: link.drain.incarnation, ready: false });
    }
    answer(actions, ticket, Reply::Done);
}

/// A link that the peer's flow has updated, before it sends what it now can.
pub open spec fn flow_taken(
    link: SendingView,
    channel: u16,
    handle: u32,
    flow: FlowView,
    actions: Seq<ActionView>,
) -> (SendingView, Seq<ActionView>) {
    let credited = match flow.link_credit {
        None => link,
        Some(credit) => SendingView {
            credit_limit: (match flow.delivery_count {
                Some(count) => count,
                None => link.delivery_count,
            } + credit) as u64,
            ..link
        },
    };
    if flow.drain {
        let request = DrainRequest {
            channel,
            handle,
            incarnation: link.drain.incarnation,
            generation: link.drain.next_generation,
        };
        (
            SendingView {
                drain: LinkDrain {
                    current: Some(PendingDrain { request, credit_limit: credited.credit_limit }),
                    incarnation: link.drain.incarnation,
                    next_generation: link.drain.next_generation.wrapping_add(1),
                },
                ..credited
            },
            actions.push(
                ActionView::Drain { link: link.drain.incarnation, request: Some(request) },
            ),
        )
    } else if link.drain.current is Some {
        (
            SendingView { drain: LinkDrain { current: None, ..link.drain }, ..credited },
            actions.push(ActionView::Drain { link: link.drain.incarnation, request: None }),
        )
    } else {
        (credited, actions)
    }
}

pub(crate) fn take_flow(
    link: &mut SendingLink,
    channel: u16,
    handle: u32,
    flow: &Flow,
    actions: &mut Vec<Action>,
)
    ensures
        (final(link).deep_view(), final(actions).deep_view()) == flow_taken(
            old(link).deep_view(),
            channel,
            handle,
            flow.deep_view(),
            old(actions).deep_view(),
        ),
{
    if let Some(credit) = flow.link_credit {
        let count: u32 = match flow.delivery_count {
            Some(count) => count,
            None => link.delivery_count,
        };
        link.credit_limit = count as u64 + credit as u64;
    }
    if flow.drain {
        let request = DrainRequest {
            channel,
            handle,
            incarnation: link.drain.incarnation,
            generation: link.drain.next_generation,
        };
        link.drain.next_generation = link.drain.next_generation.wrapping_add(1);
        link.drain.current = Some(PendingDrain { request, credit_limit: link.credit_limit });
        act(actions, Action::Drain { link: link.drain.incarnation, request: Some(request) });
    } else if link.drain.current.is_some() {
        link.drain.current = None;
        act(actions, Action::Drain { link: link.drain.incarnation, request: None });
    }
}

// ---- dispositions ----------------------------------------------------------

/// The least delivery id of a range that is unsettled, from entry `i` on.
pub open spec fn least_in(
    s: Seq<(u32, u64)>,
    first: u32,
    last: u32,
    i: int,
    best: Option<u32>,
) -> Option<u32>
    decreases s.len() - i,
{
    if i < 0 || i >= s.len() {
        best
    } else {
        let id = s[i].0;
        let better = first <= id <= last && (best is None || id < best->0);
        least_in(
            s,
            first,
            last,
            i + 1,
            if better {
                Some(id)
            } else {
                best
            },
        )
    }
}

/// Settles every unsettled delivery of a range, in the order of their ids.
pub open spec fn settled_range(
    link: SendingView,
    handle: u32,
    first: u32,
    last: u32,
    outcome: DeliveryStateView,
    settled: bool,
    batchable: bool,
    actions: Seq<ActionView>,
) -> (SendingView, Seq<ActionView>)
    decreases link.unsettled.len(),
{
    match least_in(link.unsettled, first, last, 0, None) {
        None => (link, actions),
        Some(id) => {
            let rest = entries::removed(link.unsettled, id);
            let confirmation = if link.receiver_settle_mode == ReceiverSettleMode::Second
                && !settled {
                Some(
                    PendingConfirmation {
                        handle,
                        incarnation: link.drain.incarnation,
                        delivery_id: id,
                        batchable,
                    },
                )
            } else {
                None
            };
            let ticket = entries::looked_up(link.unsettled, id)->0;
            if rest.len() < link.unsettled.len() {
                settled_range(
                    SendingView { unsettled: rest, ..link },
                    handle,
                    first,
                    last,
                    outcome,
                    settled,
                    batchable,
                    actions.push(replied(ticket, ReplyView::Settled(outcome, confirmation))),
                )
            } else {
                (link, actions)
            }
        },
    }
}

proof fn least_is_there(s: Seq<(u32, u64)>, first: u32, last: u32, i: int, best: Option<u32>)
    requires
        0 <= i <= s.len(),
        best is Some ==> exists|k: int| 0 <= k < i && (#[trigger] s[k]).0 == best->0,
    ensures
        least_in(s, first, last, i, best) matches Some(id) ==> exists|k: int|
            0 <= k < s.len() && (#[trigger] s[k]).0 == id,
    decreases s.len() - i,
{
    if i < s.len() {
        let id = s[i].0;
        let better = first <= id <= last && (best is None || id < best->0);
        least_is_there(
            s,
            first,
            last,
            i + 1,
            if better {
                Some(id)
            } else {
                best
            },
        );
    }
}

#[verifier::loop_isolation(false)]
fn least_unsettled(link: &SendingLink, first: u32, last: u32) -> (id: Option<u32>)
    ensures
        id == least_in(link.deep_view().unsettled, first, last, 0, None),
{
    let ghost s = link.unsettled.deep_view();
    let mut best: Option<u32> = None;
    let mut i: usize = 0;
    let n: usize = link.unsettled.len();
    while i < n
        invariant
            i <= n == s.len(),
            least_in(s, first, last, i as int, best) == least_in(s, first, last, 0, None),
        decreases n - i,
    {
        let (id, _) = link.unsettled.entry(i);
        let id: u32 = *id;
        if first <= id && id <= last {
            match best {
                None => {
                    best = Some(id);
                },
                Some(least) => {
                    if id < least {
                        best = Some(id);
                    }
                },
            }
        }
        i = i + 1;
    }
    best
}

/// Settles every unsettled delivery of a range.
#[verifier::loop_isolation(false)]
pub(crate) fn settle_range(
    link: &mut SendingLink,
    handle: u32,
    first: u32,
    last: u32,
    outcome: &Outcome,
    settled: bool,
    batchable: bool,
    actions: &mut Vec<Action>,
)
    ensures
        (final(link).deep_view(), final(actions).deep_view()) == settled_range(
            old(link).deep_view(),
            handle,
            first,
            last,
            outcome.deep_view(),
            settled,
            batchable,
            old(actions).deep_view(),
        ),
{
    let ghost whole = settled_range(
        link.deep_view(),
        handle,
        first,
        last,
        outcome.deep_view(),
        settled,
        batchable,
        actions.deep_view(),
    );
    loop
        invariant
            settled_range(
                link.deep_view(),
                handle,
                first,
                last,
                outcome.deep_view(),
                settled,
                batchable,
                actions.deep_view(),
            ) == whole,
        decreases link.unsettled.deep_view().len(),
    {
        let ghost s = link.unsettled.deep_view();
        let id: u32 = match least_unsettled(link, first, last) {
            Some(id) => id,
            None => return ,
        };
        proof {
            least_is_there(s, first, last, 0, None);
            entries::place_is_found(s, id, 0);
        }
        let ticket: u64 = match link.unsettled.remove(&id) {
            Some(ticket) => ticket,
            None => return ,
        };
        let confirmation = match link.receiver_settle_mode {
            ReceiverSettleMode::Second => if settled {
                None
            } else {
                Some(
                    PendingConfirmation {
                        handle,
                        incarnation: link.drain.incarnation,
                        delivery_id: id,
                        batchable,
                    },
                )
            },
            ReceiverSettleMode::First => None,
        };
        answer(actions, ticket, Reply::Settled(outcome.copied(), confirmation));
    }
}

// ---- the end of a link -----------------------------------------------------

pub open spec fn refused_queue(
    queued: Seq<QueuedView>,
    i: int,
    actions: Seq<ActionView>,
) -> Seq<ActionView>
    decreases queued.len() - i,
{
    if i < 0 || i >= queued.len() {
        actions
    } else {
        refused_queue(
            queued,
            i + 1,
            actions.push(
                replied(queued[i].ticket, ReplyView::NotStarted(EngineError::RemoteDetached)),
            ).push(replied(queued[i].ticket, ReplyView::Failed(EngineError::RemoteDetached))),
        )
    }
}

pub open spec fn refused_unsettled(
    unsettled: Seq<(u32, u64)>,
    i: int,
    actions: Seq<ActionView>,
) -> Seq<ActionView>
    decreases unsettled.len() - i,
{
    if i < 0 || i >= unsettled.len() {
        actions
    } else {
        refused_unsettled(
            unsettled,
            i + 1,
            actions.push(
                replied(unsettled[i].1, ReplyView::Failed(EngineError::RemoteDetached)),
            ),
        )
    }
}

/// Tells a link that it is detached, and fails what it has queued or unsettled.
pub open spec fn stopped(link: LinkView, actions: Seq<ActionView>) -> Seq<ActionView> {
    let told = actions.push(ActionView::Detached { link: link_incarnation(link) });
    match link {
        LinkView::Sending(link) => refused_unsettled(
            link.unsettled,
            0,
            refused_queue(link.queued, 0, told),
        ),
        LinkView::Receiving(_) => told,
    }
}

#[verifier::loop_isolation(false)]
pub(crate) fn stop_link(link: &LinkState, actions: &mut Vec<Action>)
    ensures
        final(actions).deep_view() == stopped(link.deep_view(), old(actions).deep_view()),
{
    act(actions, Action::Detached { link: link.incarnation() });
    match link {
        LinkState::Receiving(_) => {},
        LinkState::Sending(link) => {
            let ghost q = link.queued.deep_view();
            let ghost queue_done = refused_queue(q, 0, actions.deep_view());
            let mut i: usize = 0;
            while i < link.queued.len()
                invariant
                    i <= link.queued@.len() == q.len(),
                    refused_queue(q, i as int, actions.deep_view()) == queue_done,
                decreases link.queued@.len() - i,
            {
                let ticket: u64 = link.queued[i].ticket;
                proof {
                    assert(q[i as int].ticket == ticket);
                }
                answer(actions, ticket, Reply::NotStarted(EngineError::RemoteDetached));
                answer(actions, ticket, Reply::Failed(EngineError::RemoteDetached));
                i = i + 1;
            }
            let ghost u = link.unsettled.deep_view();
            let ghost all_done = refused_unsettled(u, 0, actions.deep_view());
            let mut j: usize = 0;
            let n: usize = link.unsettled.len();
            while j < n
                invariant
                    j <= n == u.len(),
                    refused_unsettled(u, j as int, actions.deep_view()) == all_done,
                decreases n - j,
            {
                let (_, ticket) = link.unsettled.entry(j);
                answer(actions, *ticket, Reply::Failed(EngineError::RemoteDetached));
                j = j + 1;
            }
        },
    }
}

} // verus!
