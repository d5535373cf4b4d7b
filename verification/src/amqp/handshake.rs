//! How a connection is opened: what each end sends, and what it waits for.

use vstd::prelude::*;

use crate::amqp::fields::Copied;
use crate::amqp::frame;
use crate::amqp::frame::{Frame, FrameView, ProtocolHeader, AMQP_PROTOCOL_ID, SASL_PROTOCOL_ID};
use crate::amqp::link::{EngineError, StateFault};
use crate::amqp::types;
use crate::amqp::types::{
    Open, OpenView, Performative, PerformativeView, SaslCode, SaslInit, SaslInitView,
    SaslMechanisms, SaslMechanismsView, SaslOutcome, SaslOutcomeView, SaslPerformative, SaslView,
};
use crate::amqp::value::Symbol;
use crate::bytes;

verus! {

/// The least frame size that a peer must be able to take.
pub const MIN_MAX_FRAME_SIZE: u32 = 512;

/// What comes in while a connection is opened.
#[derive(Debug, PartialEq, Eq)]
pub enum Event {
    Header(ProtocolHeader),
    Frame(Frame),
    /// How the peer's credentials were judged.
    Code(SaslCode),
}

pub enum EventView {
    Header(ProtocolHeader),
    Frame(FrameView),
    Code(SaslCode),
}

impl DeepView for Event {
    type V = EventView;

    open spec fn deep_view(&self) -> EventView {
        match self {
            Event::Header(header) => EventView::Header(*header),
            Event::Frame(frame) => EventView::Frame(frame.deep_view()),
            Event::Code(code) => EventView::Code(*code),
        }
    }
}

/// What is to be done to open a connection.
#[derive(Debug, PartialEq, Eq)]
pub enum Greeting {
    Header(ProtocolHeader),
    Frame(Frame),
    /// Judge the peer's credentials.
    Authenticate(SaslInit),
}

pub enum GreetingView {
    Header(ProtocolHeader),
    Frame(FrameView),
    Authenticate(SaslInitView),
}

impl DeepView for Greeting {
    type V = GreetingView;

    open spec fn deep_view(&self) -> GreetingView {
        match self {
            Greeting::Header(header) => GreetingView::Header(*header),
            Greeting::Frame(frame) => GreetingView::Frame(frame.deep_view()),
            Greeting::Authenticate(init) => GreetingView::Authenticate(init.deep_view()),
        }
    }
}

/// What an end of a connection waits for.
#[derive(Clone, Copy, Debug, PartialEq, Eq, Structural)]
pub enum Phase {
    SaslHeader,
    SaslMechanisms,
    SaslInit,
    SaslCode,
    SaslOutcome,
    AmqpHeader,
    Open,
    /// Nothing more: the peer takes frames of this size.
    Opened(u32),
    Failed,
}

pub struct Greeted {
    pub phase: Phase,
    pub greetings: Seq<GreetingView>,
    pub error: Option<EngineError>,
}

pub open spec fn greeted(
    done: Result<(), EngineError>,
    phase: Phase,
    greetings: Seq<GreetingView>,
    step: Greeted,
) -> bool {
    &&& phase == step.phase
    &&& greetings == step.greetings
    &&& match done {
        Ok(_) => step.error is None,
        Err(error) => step.error == Some(error),
    }
}

pub open spec fn next(phase: Phase, greetings: Seq<GreetingView>) -> Greeted {
    Greeted { phase, greetings, error: None }
}

pub open spec fn given_up(greetings: Seq<GreetingView>, error: EngineError) -> Greeted {
    Greeted { phase: Phase::Failed, greetings, error: Some(error) }
}

pub open spec fn faulty(greetings: Seq<GreetingView>, fault: StateFault) -> Greeted {
    given_up(greetings, EngineError::InvalidState(fault))
}

pub open spec fn sasl_frame(performative: SaslView) -> GreetingView {
    GreetingView::Frame(FrameView::Sasl(performative))
}

pub open spec fn open_frame(open: OpenView) -> GreetingView {
    GreetingView::Frame(
        FrameView::Amqp {
            channel: 0,
            performative: Some(PerformativeView::Open(open)),
            payload: Seq::empty(),
        },
    )
}

/// How an open is answered.
pub open spec fn answering(remote: OpenView, container_id: Seq<char>) -> OpenView {
    OpenView {
        max_frame_size: if remote.max_frame_size < MIN_MAX_FRAME_SIZE {
            MIN_MAX_FRAME_SIZE
        } else {
            remote.max_frame_size
        },
        channel_max: remote.channel_max,
        ..types::opening(container_id)
    }
}

// ---- the serving end -------------------------------------------------------

/// What a header or a frame leads the serving end to.
pub open spec fn accept_step(
    phase: Phase,
    container_id: Seq<char>,
    mechanisms: Seq<Seq<char>>,
    event: EventView,
    greetings: Seq<GreetingView>,
) -> Greeted {
    match (phase, event) {
        (Phase::SaslHeader, EventView::Header(header)) => {
            let sasl = frame::protocol(SASL_PROTOCOL_ID);
            if header == sasl {
                next(
                    Phase::SaslInit,
                    greetings.push(GreetingView::Header(sasl)).push(
                        sasl_frame(SaslView::Mechanisms(SaslMechanismsView { mechanisms })),
                    ),
                )
            } else {
                faulty(
                    greetings,
                    StateFault::ExpectedProtocol(SASL_PROTOCOL_ID, header.protocol_id),
                )
            }
        },
        (Phase::SaslInit, EventView::Frame(FrameView::Sasl(SaslView::Init(init)))) => next(
            Phase::SaslCode,
            greetings.push(GreetingView::Authenticate(init)),
        ),
        (Phase::SaslInit, EventView::Frame(_)) => faulty(greetings, StateFault::ExpectedSaslInit),
        (Phase::SaslCode, EventView::Code(code)) => {
            let told = greetings.push(
                sasl_frame(SaslView::Outcome(SaslOutcomeView { code, additional_data: None })),
            );
            if code == SaslCode::Success {
                next(Phase::AmqpHeader, told)
            } else {
                given_up(told, EngineError::PermissionDenied)
            }
        },
        (Phase::AmqpHeader, EventView::Header(header)) => {
            let amqp = frame::protocol(AMQP_PROTOCOL_ID);
            if header == amqp {
                next(Phase::Open, greetings.push(GreetingView::Header(amqp)))
            } else {
                faulty(
                    greetings,
                    StateFault::ExpectedProtocol(AMQP_PROTOCOL_ID, header.protocol_id),
                )
            }
        },
        (Phase::Open, EventView::Frame(frame)) => match opened_by(frame) {
            Some(remote) => next(
                Phase::Opened(remote.max_frame_size),
                greetings.push(open_frame(answering(remote, container_id))),
            ),
            None => faulty(greetings, StateFault::ExpectedOpen),
        },
        _ => faulty(greetings, StateFault::OutOfTurn),
    }
}

/// The open that a frame on channel 0 carries.
pub open spec fn opened_by(frame: FrameView) -> Option<OpenView> {
    match frame {
        FrameView::Amqp { channel, performative: Some(PerformativeView::Open(open)), payload } =>
            if channel == 0 {
            Some(open)
        } else {
            None
        },
        _ => None,
    }
}

fn greet(greetings: &mut Vec<Greeting>, greeting: Greeting)
    ensures
        final(greetings).deep_view() == old(greetings).deep_view().push(greeting.deep_view()),
{
    let ghost before = greetings.deep_view();
    let ghost last = greeting.deep_view();
    greetings.push(greeting);
    proof {
        assert(greetings.deep_view() =~= before.push(last));
    }
}

fn greet_with_open(greetings: &mut Vec<Greeting>, open: Open)
    ensures
        final(greetings).deep_view() == old(greetings).deep_view().push(
            open_frame(open.deep_view()),
        ),
{
    let payload: Vec<u8> = Vec::new();
    proof {
        assert(payload@ =~= Seq::<u8>::empty());
    }
    greet(
        greetings,
        Greeting::Frame(
            Frame::Amqp { channel: 0, performative: Some(Performative::Open(open)), payload },
        ),
    );
}

fn open_in(frame: Frame) -> (open: Option<Open>)
    ensures
        match open {
            Some(open) => opened_by(frame.deep_view()) == Some(open.deep_view()),
            None => opened_by(frame.deep_view()) is None,
        },
{
    match frame {
        Frame::Amqp { channel, performative: Some(Performative::Open(open)), payload: _ } => {
            if channel == 0 {
                Some(open)
            } else {
                None
            }
        },
        _ => None,
    }
}

/// A connection that a peer opens.
#[derive(Debug, PartialEq, Eq)]
pub struct Accepting {
    pub phase: Phase,
    pub container_id: String,
    pub mechanisms: Vec<Symbol>,
}

impl Accepting {
    /// A peer authenticates itself if there are mechanisms for it.
    pub fn new(container_id: String, mechanisms: Option<Vec<Symbol>>) -> (accepting: Accepting)
        ensures
            accepting.container_id == container_id,
            accepting.phase == if mechanisms is Some {
                Phase::SaslHeader
            } else {
                Phase::AmqpHeader
            },
            mechanisms matches Some(mechanisms) ==> accepting.mechanisms == mechanisms,
    {
        match mechanisms {
            Some(mechanisms) => Accepting { phase: Phase::SaslHeader, container_id, mechanisms },
            None => Accepting { phase: Phase::AmqpHeader, container_id, mechanisms: Vec::new() },
        }
    }

    /// Takes what came in.
    pub fn take(&mut self, event: Event, greetings: &mut Vec<Greeting>) -> (done: Result<
        (),
        EngineError,
    >)
        ensures
            greeted(
                done,
                final(self).phase,
                final(greetings).deep_view(),
                accept_step(
                    old(self).phase,
                    old(self).container_id@,
                    old(self).mechanisms.deep_view(),
                    event.deep_view(),
                    old(greetings).deep_view(),
                ),
            ),
            final(self).container_id == old(self).container_id,
            final(self).mechanisms == old(self).mechanisms,
    {
        let phase = self.phase;
        self.phase = Phase::Failed;
        match (phase, event) {
            (Phase::SaslHeader, Event::Header(header)) => {
                if header != ProtocolHeader::sasl() {
                    return Err(
                        EngineError::InvalidState(
                            StateFault::ExpectedProtocol(SASL_PROTOCOL_ID, header.protocol_id),
                        ),
                    );
                }
                greet(greetings, Greeting::Header(ProtocolHeader::sasl()));
                let mechanisms = self.mechanisms.copied();
                greet(
                    greetings,
                    Greeting::Frame(
                        Frame::Sasl(SaslPerformative::Mechanisms(SaslMechanisms { mechanisms })),
                    ),
                );
                self.phase = Phase::SaslInit;
                Ok(())
            },
            (Phase::SaslInit, Event::Frame(Frame::Sasl(SaslPerformative::Init(init)))) => {
                greet(greetings, Greeting::Authenticate(init));
                self.phase = Phase::SaslCode;
                Ok(())
            },
            (Phase::SaslInit, Event::Frame(_)) => Err(
                EngineError::InvalidState(StateFault::ExpectedSaslInit),
            ),
            (Phase::SaslCode, Event::Code(code)) => {
                greet(
                    greetings,
                    Greeting::Frame(
                        Frame::Sasl(
                            SaslPerformative::Outcome(SaslOutcome { code, additional_data: None }),
                        ),
                    ),
                );
                if code != SaslCode::Success {
                    return Err(EngineError::PermissionDenied);
                }
                self.phase = Phase::AmqpHeader;
                Ok(())
            },
            (Phase::AmqpHeader, Event::Header(header)) => {
                if header != ProtocolHeader::amqp() {
                    return Err(
                        EngineError::InvalidState(
                            StateFault::ExpectedProtocol(AMQP_PROTOCOL_ID, header.protocol_id),
                        ),
                    );
                }
                greet(greetings, Greeting::Header(ProtocolHeader::amqp()));
                self.phase = Phase::Open;
                Ok(())
            },
            (Phase::Open, Event::Frame(frame)) => match open_in(frame) {
                Some(remote) => {
                    let mut open = Open::new(self.container_id.clone());
                    open.max_frame_size = if remote.max_frame_size < MIN_MAX_FRAME_SIZE {
                        MIN_MAX_FRAME_SIZE
                    } else {
                        remote.max_frame_size
                    };
                    open.channel_max = remote.channel_max;
                    greet_with_open(greetings, open);
                    self.phase = Phase::Opened(remote.max_frame_size);
                    Ok(())
                },
                None => Err(EngineError::InvalidState(StateFault::ExpectedOpen)),
            },
            _ => Err(EngineError::InvalidState(StateFault::OutOfTurn)),
        }
    }
}

// ---- the requesting end ----------------------------------------------------

/// How the requesting end begins.
pub open spec fn first_greeting(sasl: bool) -> GreetingView {
    GreetingView::Header(
        frame::protocol(
            if sasl {
                SASL_PROTOCOL_ID
            } else {
                AMQP_PROTOCOL_ID
            },
        ),
    )
}

/// What a header or a frame leads the requesting end to.
pub open spec fn open_step(
    phase: Phase,
    container_id: Seq<char>,
    init: Option<SaslInitView>,
    event: EventView,
    greetings: Seq<GreetingView>,
) -> Greeted {
    match (phase, event) {
        (Phase::SaslHeader, EventView::Header(header)) => if header == frame::protocol(
            SASL_PROTOCOL_ID,
        ) {
            next(Phase::SaslMechanisms, greetings)
        } else {
            faulty(greetings, StateFault::ExpectedProtocol(SASL_PROTOCOL_ID, header.protocol_id))
        },
        (
            Phase::SaslMechanisms,
            EventView::Frame(FrameView::Sasl(SaslView::Mechanisms(offered))),
        ) => match init {
            Some(init) => if offered.mechanisms.contains(init.mechanism) {
                next(Phase::SaslOutcome, greetings.push(sasl_frame(SaslView::Init(init))))
            } else {
                faulty(greetings, StateFault::MechanismNotOffered)
            },
            None => faulty(greetings, StateFault::OutOfTurn),
        },
        (Phase::SaslMechanisms, EventView::Frame(_)) => faulty(
            greetings,
            StateFault::ExpectedSaslMechanisms,
        ),
        (Phase::SaslOutcome, EventView::Frame(FrameView::Sasl(SaslView::Outcome(outcome)))) => {
            if outcome.code == SaslCode::Success {
                next(Phase::AmqpHeader, greetings.push(first_greeting(false)))
            } else {
                given_up(greetings, EngineError::SaslAuthentication(outcome.code))
            }
        },
        (Phase::SaslOutcome, EventView::Frame(_)) => faulty(
            greetings,
            StateFault::ExpectedSaslOutcome,
        ),
        (Phase::AmqpHeader, EventView::Header(header)) => if header == frame::protocol(
            AMQP_PROTOCOL_ID,
        ) {
            next(Phase::Open, greetings.push(open_frame(types::opening(container_id))))
        } else {
            faulty(greetings, StateFault::ExpectedProtocol(AMQP_PROTOCOL_ID, header.protocol_id))
        },
        (Phase::Open, EventView::Frame(frame)) => match opened_by(frame) {
            Some(remote) => next(Phase::Opened(remote.max_frame_size), greetings),
            None => faulty(greetings, StateFault::ExpectedOpen),
        },
        _ => faulty(greetings, StateFault::OutOfTurn),
    }
}

/// A connection that this end opens.
#[derive(Debug, PartialEq, Eq)]
pub struct Opening {
    pub phase: Phase,
    pub container_id: String,
    pub init: Option<SaslInit>,
}

fn is_offered(offered: &Vec<Symbol>, mechanism: &Symbol) -> (yes: bool)
    ensures
        yes == offered.deep_view().contains(mechanism.deep_view()),
{
    let ghost all = offered.deep_view();
    let mut i: usize = 0;
    while i < offered.len()
        invariant
            i <= offered@.len() == all.len(),
            all == offered.deep_view(),
            forall|k: int| 0 <= k < i ==> all[k] != mechanism.deep_view(),
        decreases offered@.len() - i,
    {
        if bytes::same_text(offered[i].as_str(), mechanism.as_str()) {
            proof {
                assert(all[i as int] == mechanism.deep_view());
            }
            return true;
        }
        i = i + 1;
    }
    false
}

impl Opening {
    /// Begins to open a connection.
    pub fn new(
        container_id: String,
        init: Option<SaslInit>,
        greetings: &mut Vec<Greeting>,
    ) -> (opening: Opening)
        ensures
            opening.container_id == container_id,
            opening.init == init,
            opening.phase == if init is Some {
                Phase::SaslHeader
            } else {
                Phase::AmqpHeader
            },
            final(greetings).deep_view() == old(greetings).deep_view().push(
                first_greeting(init is Some),
            ),
    {
        let sasl: bool = init.is_some();
        if sasl {
            greet(greetings, Greeting::Header(ProtocolHeader::sasl()));
            Opening { phase: Phase::SaslHeader, container_id, init }
        } else {
            greet(greetings, Greeting::Header(ProtocolHeader::amqp()));
            Opening { phase: Phase::AmqpHeader, container_id, init }
        }
    }

    /// Takes what came in.
    pub fn take(&mut self, event: Event, greetings: &mut Vec<Greeting>) -> (done: Result<
        (),
        EngineError,
    >)
        ensures
            greeted(
                done,
                final(self).phase,
                final(greetings).deep_view(),
                open_step(
                    old(self).phase,
                    old(self).container_id@,
                    old(self).init.deep_view(),
                    event.deep_view(),
                    old(greetings).deep_view(),
                ),
            ),
            final(self).container_id == old(self).container_id,
            final(self).init == old(self).init,
    {
        let phase = self.phase;
        self.phase = Phase::Failed;
        match (phase, event) {
            (Phase::SaslHeader, Event::Header(header)) => {
                if header != ProtocolHeader::sasl() {
                    return Err(
                        EngineError::InvalidState(
                            StateFault::ExpectedProtocol(SASL_PROTOCOL_ID, header.protocol_id),
                        ),
                    );
                }
                self.phase = Phase::SaslMechanisms;
                Ok(())
            },
            (
                Phase::SaslMechanisms,
                Event::Frame(Frame::Sasl(SaslPerformative::Mechanisms(offered))),
            ) => {
                let init = match &self.init {
                    Some(init) => init,
                    None => return Err(EngineError::InvalidState(StateFault::OutOfTurn)),
                };
                if !is_offered(&offered.mechanisms, &init.mechanism) {
                    return Err(EngineError::InvalidState(StateFault::MechanismNotOffered));
                }
                greet(
                    greetings,
                    Greeting::Frame(Frame::Sasl(SaslPerformative::Init(init.copied()))),
                );
                self.phase = Phase::SaslOutcome;
                Ok(())
            },
            (Phase::SaslMechanisms, Event::Frame(_)) => Err(
                EngineError::InvalidState(StateFault::ExpectedSaslMechanisms),
            ),
            (
                Phase::SaslOutcome,
                Event::Frame(Frame::Sasl(SaslPerformative::Outcome(outcome))),
            ) => {
                if outcome.code != SaslCode::Success {
                    return Err(EngineError::SaslAuthentication(outcome.code));
                }
                greet(greetings, Greeting::Header(ProtocolHeader::amqp()));
                self.phase = Phase::AmqpHeader;
                Ok(())
            },
            (Phase::SaslOutcome, Event::Frame(_)) => Err(
                EngineError::InvalidState(StateFault::ExpectedSaslOutcome),
            ),
            (Phase::AmqpHeader, Event::Header(header)) => {
                if header != ProtocolHeader::amqp() {
                    return Err(
                        EngineError::InvalidState(
                            StateFault::ExpectedProtocol(AMQP_PROTOCOL_ID, header.protocol_id),
                        ),
                    );
                }
                greet_with_open(greetings, Open::new(self.container_id.clone()));
                self.phase = Phase::Open;
                Ok(())
            },
            (Phase::Open, Event::Frame(frame)) => match open_in(frame) {
                Some(remote) => {
                    self.phase = Phase::Opened(remote.max_frame_size);
                    Ok(())
                },
                None => Err(EngineError::InvalidState(StateFault::ExpectedOpen)),
            },
            _ => Err(EngineError::InvalidState(StateFault::OutOfTurn)),
        }
    }
}

} // verus!
