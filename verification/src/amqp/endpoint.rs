//! The ends of links that applications hold, and the requests that they make.

use vstd::prelude::*;

use crate::amqp::engine::{Command, CommandView};
use crate::amqp::entries;
use crate::amqp::entries::OrderedMap;
use crate::amqp::link::{
    CreditReservationIdentity, Delivery, DeliveryIdentity, DrainRequest, EngineError,
    PendingConfirmation, StateFault,
};
use crate::amqp::types::{
    Accepted, Attach, AttachView, DeliveryState, DeliveryStateView, DeliveryTag, Error, Fields,
    FieldsView, Message, MessageView, Modified, Outcome, Rejected, RejectedView, Released, Role,
};

verus! {

// ---- what a link tells its holder ------------------------------------------

/// Why nothing more comes over a link.
pub open spec fn ended(detached: bool) -> EngineError {
    if detached {
        EngineError::RemoteDetached
    } else {
        EngineError::Stopped
    }
}

/// Why nothing more comes over a link: the peer detached it, or the engine stopped.
pub fn why_ended(detached: bool) -> (error: EngineError)
    ensures
        error == ended(detached),
{
    if detached {
        EngineError::RemoteDetached
    } else {
        EngineError::Stopped
    }
}

/// What a holder that waits for something has got.
#[derive(Debug, PartialEq, Eq)]
pub enum Awaited<T> {
    /// What it waited for.
    Come(T),
    /// It will not come any more.
    Failed(EngineError),
    /// It may still come.
    Pending,
}

impl<T: DeepView> DeepView for Awaited<T> {
    type V = Awaited<T::V>;

    open spec fn deep_view(&self) -> Awaited<T::V> {
        match *self {
            Awaited::Come(value) => Awaited::Come(value.deep_view()),
            Awaited::Failed(error) => Awaited::Failed(error),
            Awaited::Pending => Awaited::Pending,
        }
    }
}

/// What comes first: a detach ends the wait even if what was waited for is there,
/// and an engine that stopped ends it only if it is not.
pub open spec fn awaited<T>(detached: bool, shown: Option<T>, stopped: bool) -> Awaited<T> {
    match shown {
        _ if detached => Awaited::Failed(EngineError::RemoteDetached),
        Some(value) => Awaited::Come(value),
        None if stopped => Awaited::Failed(EngineError::Stopped),
        None => Awaited::Pending,
    }
}

// ---- what becomes of a delivery --------------------------------------------

/// The settlement confirmation that receiver settle mode `second` requires after
/// a remote outcome is durably applied. It is bound to one delivery.
#[derive(Debug, PartialEq, Eq)]
pub struct DeliveryConfirmation {
    pub identity: DeliveryIdentity,
    pub incarnation: u64,
    pub batchable: bool,
}

pub open spec fn confirming(
    confirmation: DeliveryConfirmation,
    state: DeliveryStateView,
    ticket: u64,
) -> CommandView {
    CommandView::Confirm {
        channel: confirmation.identity.channel,
        handle: confirmation.identity.handle,
        incarnation: confirmation.incarnation,
        delivery_id: confirmation.identity.delivery_id,
        state,
        batchable: confirmation.batchable,
        ticket,
    }
}

impl DeliveryConfirmation {
    pub fn identity(&self) -> (identity: DeliveryIdentity)
        ensures
            identity == self.identity,
    {
        self.identity
    }

    /// The request that confirms a delivery's final state.
    pub fn confirm(&self, state: DeliveryState, ticket: u64) -> (command: Command)
        ensures
            command.deep_view() == confirming(*self, state.deep_view(), ticket),
    {
        Command::Confirm {
            channel: self.identity.channel,
            handle: self.identity.handle,
            incarnation: self.incarnation,
            delivery_id: self.identity.delivery_id,
            state,
            batchable: self.batchable,
            ticket,
        }
    }
}

/// What the peer made of a delivery.
#[derive(Debug, PartialEq, Eq)]
pub struct DeliveryOutcome {
    pub identity: DeliveryIdentity,
    pub outcome: Outcome,
    pub confirmation: Option<DeliveryConfirmation>,
}

impl DeliveryOutcome {
    pub fn identity(&self) -> (identity: DeliveryIdentity)
        ensures
            identity == self.identity,
    {
        self.identity
    }

    pub fn outcome(&self) -> (outcome: &Outcome)
        ensures
            *outcome == self.outcome,
    {
        &self.outcome
    }

    pub fn needs_confirmation(&self) -> (needs: bool)
        ensures
            needs == self.confirmation is Some,
    {
        self.confirmation.is_some()
    }

    pub fn into_parts(self) -> (parts: (DeliveryIdentity, Outcome, Option<DeliveryConfirmation>))
        ensures
            parts == (self.identity, self.outcome, self.confirmation),
    {
        (self.identity, self.outcome, self.confirmation)
    }
}

/// A delivery that has consumed link credit and been written, and whose remote
/// outcome has not necessarily come yet.
#[derive(Debug, PartialEq, Eq)]
pub struct PendingDelivery {
    pub identity: DeliveryIdentity,
}

/// The confirmation of an outcome on a channel.
pub open spec fn confirmation_on(
    channel: u16,
    pending: PendingConfirmation,
) -> DeliveryConfirmation {
    DeliveryConfirmation {
        identity: DeliveryIdentity {
            channel,
            handle: pending.handle,
            delivery_id: pending.delivery_id,
        },
        incarnation: pending.incarnation,
        batchable: pending.batchable,
    }
}

impl PendingDelivery {
    pub fn identity(&self) -> (identity: DeliveryIdentity)
        ensures
            identity == self.identity,
    {
        self.identity
    }

    /// Takes the remote outcome.
    pub fn resolve(self, outcome: Outcome, confirmation: Option<PendingConfirmation>) -> (resolved:
        DeliveryOutcome)
        ensures
            resolved == (DeliveryOutcome {
                identity: self.identity,
                outcome,
                confirmation: match confirmation {
                    Some(pending) => Some(confirmation_on(self.identity.channel, pending)),
                    None => None,
                },
            }),
    {
        let confirmation = match confirmation {
            Some(pending) => Some(
                DeliveryConfirmation {
                    identity: DeliveryIdentity {
                        channel: self.identity.channel,
                        handle: pending.handle,
                        delivery_id: pending.delivery_id,
                    },
                    incarnation: pending.incarnation,
                    batchable: pending.batchable,
                },
            ),
            None => None,
        };
        DeliveryOutcome { identity: self.identity, outcome, confirmation }
    }
}

// ---- senders ---------------------------------------------------------------

/// The end of a link that sends.
#[derive(Debug, PartialEq, Eq)]
pub struct Sender {
    pub name: String,
    pub channel: u16,
    pub handle: u32,
    pub incarnation: u64,
    /// The outcome that waits to be confirmed.
    pub pending_confirmation: Option<DeliveryConfirmation>,
}

pub open spec fn sending(
    sender: Sender,
    reservation: Option<CreditReservationIdentity>,
    message: MessageView,
    delivery_tag: Seq<u8>,
    ticket: u64,
) -> CommandView {
    CommandView::Send {
        channel: sender.channel,
        handle: sender.handle,
        incarnation: sender.incarnation,
        message,
        message_format: 0,
        delivery_tag,
        reservation,
        ticket,
    }
}

pub open spec fn detaching(
    channel: u16,
    handle: u32,
    incarnation: u64,
    error: Option<crate::amqp::types::ErrorView>,
    ticket: u64,
) -> CommandView {
    CommandView::Detach { channel, handle, incarnation, error, ticket }
}

impl Sender {
    pub fn name(&self) -> (name: &str)
        ensures
            name@ == self.name@,
    {
        self.name.as_str()
    }

    /// The request to send a delivery once there is credit for it.
    pub fn send_pending(
        &self,
        message: Message,
        delivery_tag: DeliveryTag,
        ticket: u64,
    ) -> (command: Command)
        ensures
            command.deep_view() == sending(
                *self,
                None,
                message.deep_view(),
                delivery_tag@,
                ticket,
            ),
    {
        Command::Send {
            channel: self.channel,
            handle: self.handle,
            incarnation: self.incarnation,
            message,
            message_format: 0,
            delivery_tag,
            reservation: None,
            ticket,
        }
    }

    /// The request to send a delivery with credit that was reserved on this link.
    pub fn send_pending_with_credit(
        &self,
        reservation: CreditReservationIdentity,
        message: Message,
        delivery_tag: DeliveryTag,
        ticket: u64,
    ) -> (command: Result<Command, EngineError>)
        ensures
            match command {
                Ok(command) => reservation.channel == self.channel && reservation.handle
                    == self.handle && command.deep_view() == sending(
                    *self,
                    Some(reservation),
                    message.deep_view(),
                    delivery_tag@,
                    ticket,
                ),
                Err(error) => (reservation.channel != self.channel || reservation.handle
                    != self.handle) && error == EngineError::InvalidState(
                    StateFault::ForeignReservation,
                ),
            },
    {
        if reservation.channel != self.channel || reservation.handle != self.handle {
            return Err(EngineError::InvalidState(StateFault::ForeignReservation));
        }
        Ok(
            Command::Send {
                channel: self.channel,
                handle: self.handle,
                incarnation: self.incarnation,
                message,
                message_format: 0,
                delivery_tag,
                reservation: Some(reservation),
                ticket,
            },
        )
    }

    /// The request to send a delivery whose outcome this end will confirm. Only one
    /// such delivery may be pending on a sender.
    pub fn send_unconfirmed(
        &self,
        message: Message,
        delivery_tag: DeliveryTag,
        ticket: u64,
    ) -> (command: Result<Command, EngineError>)
        ensures
            match command {
                Ok(command) => self.pending_confirmation is None && command.deep_view() == sending(
                    *self,
                    None,
                    message.deep_view(),
                    delivery_tag@,
                    ticket,
                ),
                Err(error) => self.pending_confirmation is Some && error
                    == EngineError::InvalidState(StateFault::UnconfirmedOutcome),
            },
    {
        if self.pending_confirmation.is_some() {
            return Err(EngineError::InvalidState(StateFault::UnconfirmedOutcome));
        }
        Ok(self.send_pending(message, delivery_tag, ticket))
    }

    /// Takes the outcome of a delivery that this end will confirm.
    pub fn unconfirmed(&mut self, resolved: DeliveryOutcome) -> (outcome: Outcome)
        ensures
            outcome == resolved.outcome,
            *final(self) == (Sender {
                pending_confirmation: resolved.confirmation,
                ..*old(self)
            }),
    {
        let (_, outcome, confirmation) = resolved.into_parts();
        self.pending_confirmation = confirmation;
        outcome
    }

    /// The request that confirms the outcome that waits for it, if one does.
    pub fn confirm(&self, state: DeliveryState, ticket: u64) -> (command: Option<Command>)
        ensures
            match command {
                Some(command) => self.pending_confirmation matches Some(confirmation)
                    && command.deep_view() == confirming(confirmation, state.deep_view(), ticket),
                None => self.pending_confirmation is None,
            },
    {
        match &self.pending_confirmation {
            Some(confirmation) => Some(confirmation.confirm(state, ticket)),
            None => None,
        }
    }

    /// Takes the answer to a confirmation. One that failed can be tried again.
    pub fn confirmed(&mut self, done: bool)
        ensures
            *final(self) == if done {
                (Sender { pending_confirmation: None, ..*old(self) })
            } else {
                *old(self)
            },
    {
        if done {
            self.pending_confirmation = None;
        }
    }

    /// What a holder that waits for a drain has got: the drain that the link shows,
    /// as long as it shows one, until the link is detached.
    pub fn on_drain(&self, detached: bool, drain: Option<DrainRequest>, stopped: bool) -> (next:
        Awaited<DrainRequest>)
        ensures
            next == awaited(detached, drain, stopped),
    {
        if detached {
            return Awaited::Failed(EngineError::RemoteDetached);
        }
        match drain {
            Some(request) => Awaited::Come(request),
            None => if stopped {
                Awaited::Failed(EngineError::Stopped)
            } else {
                Awaited::Pending
            },
        }
    }

    /// What a holder that waits for credit has got: while the link shows credit, the
    /// request to reserve some for one delivery.
    pub fn on_credit(&self, detached: bool, ready: bool, stopped: bool, ticket: u64) -> (next:
        Awaited<Command>)
        ensures
            next.deep_view() == awaited(
                detached,
                if ready {
                    Some(
                        CommandView::ReserveCredit {
                            channel: self.channel,
                            handle: self.handle,
                            incarnation: self.incarnation,
                            ticket,
                        },
                    )
                } else {
                    None
                },
                stopped,
            ),
    {
        if detached {
            return Awaited::Failed(EngineError::RemoteDetached);
        }
        if ready {
            return Awaited::Come(
                Command::ReserveCredit {
                    channel: self.channel,
                    handle: self.handle,
                    incarnation: self.incarnation,
                    ticket,
                },
            );
        }
        if stopped {
            Awaited::Failed(EngineError::Stopped)
        } else {
            Awaited::Pending
        }
    }

    /// The request to return all unused credit for a drain of this link.
    pub fn drained(&self, request: DrainRequest, ticket: u64) -> (command: Result<
        Command,
        EngineError,
    >)
        ensures
            match command {
                Ok(command) => request.channel == self.channel && request.handle == self.handle
                    && command.deep_view() == (CommandView::Drained { request, ticket }),
                Err(error) => (request.channel != self.channel || request.handle != self.handle)
                    && error == EngineError::InvalidState(StateFault::ForeignDrain),
            },
    {
        if request.channel != self.channel || request.handle != self.handle {
            return Err(EngineError::InvalidState(StateFault::ForeignDrain));
        }
        Ok(Command::Drained { request, ticket })
    }

    /// The request to detach the link.
    pub fn close(&self, error: Option<Error>, ticket: u64) -> (command: Command)
        ensures
            command.deep_view() == detaching(
                self.channel,
                self.handle,
                self.incarnation,
                error.deep_view(),
                ticket,
            ),
    {
        Command::Detach {
            channel: self.channel,
            handle: self.handle,
            incarnation: self.incarnation,
            error,
            ticket,
        }
    }
}

// ---- receivers -------------------------------------------------------------

/// The end of a link that receives.
#[derive(Debug, PartialEq, Eq)]
pub struct Receiver {
    pub channel: u16,
    pub handle: u32,
    pub incarnation: u64,
}

/// The request to settle a delivery. One that came settled needs none.
pub open spec fn settling(
    receiver: Receiver,
    id: u32,
    settled: bool,
    state: DeliveryStateView,
    ticket: u64,
) -> Option<CommandView> {
    if settled {
        None
    } else {
        Some(
            CommandView::Settle {
                channel: receiver.channel,
                handle: receiver.handle,
                incarnation: receiver.incarnation,
                delivery_id: id,
                state,
                ticket,
            },
        )
    }
}

impl Receiver {
    /// What a holder that waits for a delivery gets: the next one, or why none comes
    /// any more.
    pub fn recv(&self, next: Option<Delivery>, detached: bool) -> (received: Result<
        Delivery,
        EngineError,
    >)
        ensures
            received == match next {
                Some(delivery) => Ok(delivery),
                None => Err(ended(detached)),
            },
    {
        match next {
            Some(delivery) => Ok(delivery),
            None => Err(why_ended(detached)),
        }
    }

    fn settle(&self, delivery: &Delivery, state: DeliveryState, ticket: u64) -> (command: Option<
        Command,
    >)
        ensures
            command.deep_view() == settling(
                *self,
                delivery.id,
                delivery.settled,
                state.deep_view(),
                ticket,
            ),
    {
        if delivery.settled {
            return None;
        }
        Some(
            Command::Settle {
                channel: self.channel,
                handle: self.handle,
                incarnation: self.incarnation,
                delivery_id: delivery.id,
                state,
                ticket,
            },
        )
    }

    pub fn accept(&self, delivery: &Delivery, ticket: u64) -> (command: Option<Command>)
        ensures
            command.deep_view() == settling(
                *self,
                delivery.id,
                delivery.settled,
                DeliveryStateView::Accepted,
                ticket,
            ),
    {
        self.settle(delivery, DeliveryState::Accepted(Accepted), ticket)
    }

    pub fn reject(
        &self,
        delivery: &Delivery,
        error: Option<Error>,
        ticket: u64,
    ) -> (command: Option<Command>)
        ensures
            command.deep_view() == settling(
                *self,
                delivery.id,
                delivery.settled,
                DeliveryStateView::Rejected(RejectedView { error: error.deep_view() }),
                ticket,
            ),
    {
        self.settle(delivery, DeliveryState::Rejected(Rejected { error }), ticket)
    }

    pub fn release(&self, delivery: &Delivery, ticket: u64) -> (command: Option<Command>)
        ensures
            command.deep_view() == settling(
                *self,
                delivery.id,
                delivery.settled,
                DeliveryStateView::Released,
                ticket,
            ),
    {
        self.settle(delivery, DeliveryState::Released(Released), ticket)
    }

    pub fn modify(&self, delivery: &Delivery, modified: Modified, ticket: u64) -> (command: Option<
        Command,
    >)
        ensures
            command.deep_view() == settling(
                *self,
                delivery.id,
                delivery.settled,
                DeliveryStateView::Modified(modified.deep_view()),
                ticket,
            ),
    {
        self.settle(delivery, DeliveryState::Modified(modified), ticket)
    }

    /// The request to detach the link.
    pub fn close(&self, error: Option<Error>, ticket: u64) -> (command: Command)
        ensures
            command.deep_view() == detaching(
                self.channel,
                self.handle,
                self.incarnation,
                error.deep_view(),
                ticket,
            ),
    {
        Command::Detach {
            channel: self.channel,
            handle: self.handle,
            incarnation: self.incarnation,
            error,
            ticket,
        }
    }
}

/// The end of a link that a peer attached.
#[derive(Debug, PartialEq, Eq)]
pub enum LinkEndpoint {
    Sender(Sender),
    Receiver(Receiver),
}

// ---- sessions --------------------------------------------------------------

/// What tells an attach from another under the same handle.
#[derive(Clone, Copy, Debug, PartialEq, Eq, Structural)]
pub struct IncomingAttachIdentity {
    pub session_incarnation: u64,
    pub incarnation: u64,
}

impl DeepView for IncomingAttachIdentity {
    type V = IncomingAttachIdentity;

    open spec fn deep_view(&self) -> IncomingAttachIdentity {
        *self
    }
}

/// A session that was accepted.
#[derive(Debug, PartialEq, Eq)]
pub struct ServerSession {
    pub channel: u16,
    pub incarnation: u64,
    /// The attaches that were handed out, by handle, in the order in which they came.
    pub pending_attach_identities: OrderedMap<u32, Vec<IncomingAttachIdentity>>,
}

pub struct ServerSessionView {
    pub channel: u16,
    pub incarnation: u64,
    pub pending: Seq<(u32, Seq<IncomingAttachIdentity>)>,
}

impl DeepView for ServerSession {
    type V = ServerSessionView;

    open spec fn deep_view(&self) -> ServerSessionView {
        ServerSessionView {
            channel: self.channel,
            incarnation: self.incarnation,
            pending: self.pending_attach_identities.deep_view(),
        }
    }
}

/// The attaches of a handle that were handed out.
pub open spec fn handed_out(
    pending: Seq<(u32, Seq<IncomingAttachIdentity>)>,
    handle: u32,
) -> Seq<IncomingAttachIdentity> {
    match entries::looked_up(pending, handle) {
        Some(identities) => identities,
        None => Seq::empty(),
    }
}

/// What is left after the first attach of a handle was taken.
pub open spec fn taken_out(
    pending: Seq<(u32, Seq<IncomingAttachIdentity>)>,
    handle: u32,
) -> Seq<(u32, Seq<IncomingAttachIdentity>)> {
    let identities = handed_out(pending, handle);
    if identities.len() <= 1 {
        entries::removed(pending, handle)
    } else {
        entries::inserted(pending, handle, identities.skip(1))
    }
}

pub open spec fn accepting(
    session: ServerSessionView,
    incarnation: u64,
    attach: AttachView,
    max_message_size: u64,
    properties: Option<FieldsView>,
    ticket: u64,
) -> CommandView {
    CommandView::AcceptLink {
        channel: session.channel,
        session_incarnation: session.incarnation,
        incarnation,
        attach,
        max_message_size,
        properties,
        ticket,
    }
}

/// The end at this side of an attach: the other of the peer's.
pub open spec fn endpoint_for(
    endpoint: LinkEndpoint,
    channel: u16,
    incarnation: u64,
    attach: AttachView,
) -> bool {
    match (attach.role, endpoint) {
        (Role::Sender, LinkEndpoint::Receiver(receiver)) => receiver == (Receiver {
            channel,
            handle: attach.handle,
            incarnation,
        }),
        (Role::Receiver, LinkEndpoint::Sender(sender)) => {
            &&& sender.name@ == attach.name
            &&& sender.channel == channel
            &&& sender.handle == attach.handle
            &&& sender.incarnation == incarnation
            &&& sender.pending_confirmation is None
        },
        _ => false,
    }
}

impl ServerSession {
    pub fn new(channel: u16, incarnation: u64) -> (session: ServerSession)
        ensures
            session.deep_view() == (ServerSessionView {
                channel,
                incarnation,
                pending: Seq::empty(),
            }),
    {
        ServerSession { channel, incarnation, pending_attach_identities: OrderedMap::new() }
    }

    /// Notes an attach that is handed out to the application.
    pub fn hand_out(&mut self, handle: u32, session_incarnation: u64, incarnation: u64)
        ensures
            final(self).deep_view() == (ServerSessionView {
                pending: entries::inserted(
                    old(self).deep_view().pending,
                    handle,
                    handed_out(old(self).deep_view().pending, handle).push(
                        IncomingAttachIdentity { session_incarnation, incarnation },
                    ),
                ),
                ..old(self).deep_view()
            }),
    {
        let identity = IncomingAttachIdentity { session_incarnation, incarnation };
        let mut identities: Vec<IncomingAttachIdentity> = Vec::new();
        let ghost pending = self.pending_attach_identities.deep_view();
        proof {
            assert(identities.deep_view() =~= Seq::<IncomingAttachIdentity>::empty());
        }
        if let Some(earlier) = self.pending_attach_identities.get_mut(&handle) {
            std::mem::swap(&mut identities, earlier);
        }
        proof {
            assert(identities.deep_view() == handed_out(pending, handle));
        }
        identities.push(identity);
        proof {
            assert(identities.deep_view() =~= handed_out(pending, handle).push(identity));
            crate::amqp::session::second_insertion_stands(
                pending,
                handle,
                Seq::<IncomingAttachIdentity>::empty(),
                identities.deep_view(),
            );
        }
        self.pending_attach_identities.insert(handle, identities);
    }

    fn take_identity(&mut self, handle: u32) -> (identity: Option<IncomingAttachIdentity>)
        ensures
            final(self).deep_view() == (ServerSessionView {
                pending: taken_out(old(self).deep_view().pending, handle),
                ..old(self).deep_view()
            }),
            ({
                let identities = handed_out(old(self).deep_view().pending, handle);
                identity == if identities.len() == 0 {
                    None
                } else {
                    Some(identities[0])
                }
            }),
    {
        let ghost pending = self.pending_attach_identities.deep_view();
        let ghost all = handed_out(pending, handle);
        let mut first: Option<IncomingAttachIdentity> = None;
        let mut emptied: bool = false;
        if let Some(identities) = self.pending_attach_identities.get_mut(&handle) {
            if identities.len() > 0 {
                first = Some(identities.remove(0));
                proof {
                    assert(identities.deep_view() =~= all.skip(1));
                }
            }
            emptied = identities.len() == 0;
        }
        if emptied {
            let _ = self.pending_attach_identities.remove(&handle);
            proof {
                removal_undoes_change(pending, handle, Seq::<IncomingAttachIdentity>::empty());
                assert(all.len() > 0 ==> all.skip(1) =~= Seq::<IncomingAttachIdentity>::empty());
                entries::reinsertion_changes_nothing(pending, handle);
            }
        }
        first
    }

    /// Accepts an attach that was handed out, without properties.
    pub fn accept_attach(
        &mut self,
        attach: Attach,
        max_message_size: u64,
        ticket: u64,
    ) -> (accepted:
        Result<(Command, LinkEndpoint), EngineError>)
        ensures
            final(self).deep_view() == (ServerSessionView {
                pending: taken_out(old(self).deep_view().pending, attach.deep_view().handle),
                ..old(self).deep_view()
            }),
            ({
                let identities = handed_out(
                    old(self).deep_view().pending,
                    attach.deep_view().handle,
                );
                match accepted {
                    Ok((command, endpoint)) => {
                        &&& identities.len() > 0
                        &&& identities[0].session_incarnation == old(self).deep_view().incarnation
                        &&& command.deep_view() == accepting(
                            old(self).deep_view(),
                            identities[0].incarnation,
                            attach.deep_view(),
                            max_message_size,
                            None,
                            ticket,
                        )
                        &&& endpoint_for(
                            endpoint,
                            old(self).deep_view().channel,
                            identities[0].incarnation,
                            attach.deep_view(),
                        )
                    },
                    Err(error) => if identities.len() == 0 {
                        error == EngineError::InvalidState(StateFault::AttachNotReceived)
                    } else {
                        identities[0].session_incarnation != old(self).deep_view().incarnation
                            && error == EngineError::RemoteDetached
                    },
                }
            }),
    {
        self.accept_attach_with_properties(attach, max_message_size, None, ticket)
    }

    /// Accepts an attach that was handed out: the request to the connection, and
    /// this end of the link.
    pub fn accept_attach_with_properties(
        &mut self,
        attach: Attach,
        max_message_size: u64,
        properties: Option<Fields>,
        ticket: u64,
    ) -> (accepted: Result<(Command, LinkEndpoint), EngineError>)
        ensures
            final(self).deep_view() == (ServerSessionView {
                pending: taken_out(old(self).deep_view().pending, attach.deep_view().handle),
                ..old(self).deep_view()
            }),
            ({
                let identities = handed_out(
                    old(self).deep_view().pending,
                    attach.deep_view().handle,
                );
                match accepted {
                    Ok((command, endpoint)) => {
                        &&& identities.len() > 0
                        &&& identities[0].session_incarnation == old(self).deep_view().incarnation
                        &&& command.deep_view() == accepting(
                            old(self).deep_view(),
                            identities[0].incarnation,
                            attach.deep_view(),
                            max_message_size,
                            properties.deep_view(),
                            ticket,
                        )
                        &&& endpoint_for(
                            endpoint,
                            old(self).deep_view().channel,
                            identities[0].incarnation,
                            attach.deep_view(),
                        )
                    },
                    Err(error) => if identities.len() == 0 {
                        error == EngineError::InvalidState(StateFault::AttachNotReceived)
                    } else {
                        identities[0].session_incarnation != old(self).deep_view().incarnation
                            && error == EngineError::RemoteDetached
                    },
                }
            }),
    {
        let handle: u32 = attach.handle;
        let identity = match self.take_identity(handle) {
            Some(identity) => identity,
            None => return Err(EngineError::InvalidState(StateFault::AttachNotReceived)),
        };
        if identity.session_incarnation != self.incarnation {
            return Err(EngineError::RemoteDetached);
        }
        let incarnation: u64 = identity.incarnation;
        let endpoint = match attach.role {
            Role::Sender => LinkEndpoint::Receiver(
                Receiver { channel: self.channel, handle, incarnation },
            ),
            Role::Receiver => LinkEndpoint::Sender(
                Sender {
                    name: attach.name.clone(),
                    channel: self.channel,
                    handle,
                    incarnation,
                    pending_confirmation: None,
                },
            ),
        };
        let command = Command::AcceptLink {
            channel: self.channel,
            session_incarnation: self.incarnation,
            incarnation,
            attach,
            max_message_size,
            properties,
            ticket,
        };
        Ok((command, endpoint))
    }
}

/// To remove a key undoes a change of its value.
proof fn removal_undoes_change<K, V>(s: Seq<(K, V)>, key: K, value: V)
    ensures
        entries::looked_up(s, key) is Some ==> entries::removed(
            entries::inserted(s, key, value),
            key,
        ) == entries::removed(s, key),
{
    let t = entries::inserted(s, key, value);
    entries::place_is_found(s, key, 0);
    entries::place_is_found(t, key, 0);
    if let Some(i) = entries::place(s, key, 0) {
        assert(t[i].0 == key);
        if let Some(j) = entries::place(t, key, 0) {
            assert(j < i ==> t[j] == s[j]);
        }
        assert(t.remove(i) =~= s.remove(i));
    }
}

} // verus!
