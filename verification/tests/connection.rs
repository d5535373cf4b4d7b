use switchyard::amqp::client::{
    next_delivery_tag, settle_delivery, AttachRequest, Client, ClientCommand, ClientVerdict,
};
use switchyard::amqp::connect::{
    connection_address, endpoint, ClientConnectionBuilder, ClientReceiverBuilder,
};
use switchyard::amqp::engine::{Command, Engine, Verdict};
use switchyard::amqp::endpoint::{Awaited, LinkEndpoint, Receiver, Sender, ServerSession};
use switchyard::amqp::frame::{decode_frame, encode_frame, Frame, ProtocolHeader};
use switchyard::amqp::handshake::{Accepting, Event, Greeting, Opening, Phase};
use switchyard::amqp::link::{
    Action, Delivery, DrainRequest, EngineError, Reply, StateFault,
};
use switchyard::amqp::message::encode_message;
use switchyard::amqp::types::{
    Accepted, DeliveryState, Message, Open, Outcome, Performative, Role, SaslCode, SaslInit,
    SaslMechanisms, SaslPerformative, SenderSettleMode, Source, Target,
};
use switchyard::amqp::value::Symbol;
use switchyard::uri::Uri;

fn text(text: &str) -> String {
    String::from(text)
}

/// A client and a server, and what they have said to their applications.
struct Pair {
    client: Client,
    server: Engine,
    heard_by_client: Vec<Action>,
    heard_by_server: Vec<Action>,
    fresh: u64,
}

impl Pair {
    fn new() -> Pair {
        Pair {
            client: Client::new(64 * 1024),
            server: Engine::new(64 * 1024),
            heard_by_client: Vec::new(),
            heard_by_server: Vec::new(),
            fresh: 100,
        }
    }

    fn fresh(&mut self) -> u64 {
        self.fresh += 1;
        self.fresh
    }

    fn over_the_wire(channel: u16, performative: Performative, payload: Vec<u8>) -> Frame {
        let frame = Frame::Amqp { channel, performative: Some(performative), payload };
        let octets = encode_frame(&frame).expect("the frame encodes");
        decode_frame(&octets).expect("the frame decodes")
    }

    fn to_server(&mut self, actions: Vec<Action>) {
        for action in actions {
            if let Action::Write { channel, performative, payload } = action {
                let frame = Pair::over_the_wire(channel, performative, payload);
                let mut answers = Vec::new();
                let (one, two) = (self.fresh(), self.fresh());
                let verdict = self.server.handle_frame(frame, one, two, &mut answers);
                assert!(matches!(verdict, Verdict::Continue | Verdict::Closed));
                self.to_client(answers);
            } else {
                self.heard_by_client.push(action);
            }
        }
    }

    fn to_client(&mut self, actions: Vec<Action>) {
        for action in actions {
            if let Action::Write { channel, performative, payload } = action {
                let frame = Pair::over_the_wire(channel, performative, payload);
                let mut answers = Vec::new();
                let verdict = self.client.handle_frame(frame, &mut answers);
                assert!(matches!(verdict, ClientVerdict::Continue | ClientVerdict::Ended));
                self.to_server(answers);
            } else {
                self.heard_by_server.push(action);
            }
        }
    }

    fn ask_client(&mut self, command: ClientCommand) {
        let mut actions = Vec::new();
        let (one, two) = (self.fresh(), self.fresh());
        let verdict = self.client.handle_command(command, one, two, &mut actions);
        assert_eq!(verdict, ClientVerdict::Continue);
        self.to_server(actions);
    }

    fn ask_server(&mut self, command: Command) {
        let mut actions = Vec::new();
        let verdict = self.server.handle_command(command, &mut actions);
        assert!(matches!(verdict, Verdict::Continue | Verdict::Closing(_)));
        self.to_client(actions);
    }

    fn client_reply(&self, wanted: u64) -> &Reply {
        self.heard_by_client
            .iter()
            .find_map(|action| match action {
                Action::Reply { ticket, reply } if *ticket == wanted => Some(reply),
                _ => None,
            })
            .expect("the request is answered")
    }
}

/// A client that sends, and a server that receives, over an open link.
fn linked() -> (Pair, LinkEndpoint, u32, u64) {
    let mut pair = Pair::new();
    pair.ask_client(ClientCommand::Begin { ticket: 1 });
    let (channel, incarnation) = match pair.heard_by_server.remove(0) {
        Action::Begun { channel, incarnation, .. } => (channel, incarnation),
        _ => panic!("the client begins a session"),
    };
    pair.ask_server(Command::AcceptSession { channel, incarnation, ticket: 2 });
    assert_eq!(pair.client_reply(1), &Reply::Begun(0));
    let mut session = ServerSession::new(channel, incarnation);

    let request = AttachRequest::sender(text("sender"), Target::new(text("queue")));
    pair.ask_client(ClientCommand::Attach { channel: 0, request, ticket: 3 });
    let at = pair
        .heard_by_server
        .iter()
        .position(|action| matches!(action, Action::Attached { .. }))
        .expect("the client attaches a sender");
    let (link, attach) = match pair.heard_by_server.remove(at) {
        Action::Attached { incarnation, attach, .. } => (incarnation, attach),
        _ => panic!("an attach"),
    };
    session.hand_out(attach.handle, incarnation, link);
    let (command, endpoint) = session
        .accept_attach(attach, 64 * 1024, 4)
        .expect("the server accepts the link");
    pair.ask_server(command);
    let (handle, client_link) = match pair.client_reply(3) {
        Reply::Opened { handle, incarnation, .. } => (*handle, *incarnation),
        _ => panic!("the link is open"),
    };
    (pair, endpoint, handle, client_link)
}

#[test]
fn client_sender_can_send_an_explicit_message_format() {
    let message_format = 0x8001_3700;
    let message = Message::data(b"formatted-batch".to_vec());
    let encoded = encode_message(&message).expect("message encodes");
    let (mut pair, endpoint, handle, incarnation) = linked();
    let mut next_tag = 0;
    pair.ask_client(ClientCommand::Send {
        channel: 0,
        handle,
        incarnation,
        message: message.clone(),
        message_format,
        delivery_tag: next_delivery_tag(&mut next_tag),
        ticket: 5,
    });
    let at = pair
        .heard_by_server
        .iter()
        .position(|action| matches!(action, Action::Deliver { .. }))
        .or_else(|| None);
    let delivery: Delivery = match at {
        Some(at) => match pair.heard_by_server.remove(at) {
            Action::Deliver { delivery, .. } => delivery,
            _ => panic!("a delivery"),
        },
        None => panic!("the server receives the message"),
    };
    let LinkEndpoint::Receiver(receiver) = endpoint else {
        panic!("a client sender creates a server receiver");
    };
    pair.ask_server(receiver.accept(&delivery, 6).expect("the delivery is unsettled"));

    let outcome = pair
        .heard_by_client
        .iter()
        .chain(pair.heard_by_server.iter())
        .find_map(|action| match action {
            Action::Reply { ticket: 5, reply: Reply::Settled(outcome, _) } => Some(outcome),
            _ => None,
        })
        .expect("formatted delivery receives an outcome");
    assert_eq!(outcome, &Outcome::Accepted(Accepted));
    assert_eq!(delivery.message_format(), message_format);
    assert_eq!(delivery.message(), &message);
    assert_eq!(delivery.encoded_message(), encoded);
}

#[test]
fn a_client_detaches_ends_and_closes() {
    let (mut pair, _, handle, incarnation) = linked();
    pair.ask_client(ClientCommand::Detach { channel: 0, handle, incarnation, ticket: 7 });
    assert_eq!(pair.server.sessions.get(&0).map(|session| session.links.len()), Some(0));
    assert_eq!(pair.client.sessions.get(&0).map(|session| session.links.len()), Some(0));
    pair.ask_client(ClientCommand::Detach { channel: 0, handle, incarnation, ticket: 8 });
    assert_eq!(pair.client_reply(8), &Reply::Done);
    pair.ask_client(ClientCommand::End { channel: 0, ticket: 9 });
    assert_eq!(pair.client.sessions.len(), 0);
    assert_eq!(pair.server.sessions.len(), 0);
    pair.ask_client(ClientCommand::Close { ticket: 10 });
    assert_eq!(pair.client.closing, None);
}

#[test]
fn a_client_that_stops_fails_what_waits() {
    let mut client = Client::new(512);
    let mut actions = Vec::new();
    client.handle_command(ClientCommand::Begin { ticket: 1 }, 1, 2, &mut actions);
    let request = ClientReceiverBuilder::default().request();
    client.handle_command(
        ClientCommand::Attach { channel: 0, request, ticket: 2 },
        3,
        4,
        &mut actions,
    );
    client.handle_command(ClientCommand::Close { ticket: 3 }, 5, 6, &mut actions);
    let mut told = Vec::new();
    client.stop(&mut told);
    assert_eq!(
        told,
        vec![
            Action::Detached { link: 4 },
            Action::Reply { ticket: 1, reply: Reply::Failed(EngineError::Stopped) },
            Action::Reply { ticket: 2, reply: Reply::Failed(EngineError::Stopped) },
            Action::Reply { ticket: 3, reply: Reply::Failed(EngineError::RemoteClosed) },
        ]
    );
    assert_eq!(
        client.handle_command(
            ClientCommand::Attach {
                channel: 9,
                request: ClientReceiverBuilder::default().request(),
                ticket: 4
            },
            7,
            8,
            &mut told
        ),
        ClientVerdict::Failed(EngineError::InvalidState(StateFault::AttachOnUnknownSession))
    );
}

#[test]
fn delivery_tags_count_up() {
    let mut next = 258;
    assert_eq!(next_delivery_tag(&mut next), vec![0, 0, 0, 0, 0, 0, 1, 2]);
    assert_eq!(next, 259);
    next = u64::MAX;
    assert_eq!(next_delivery_tag(&mut next), vec![255; 8]);
    assert_eq!(next, 0);
}

#[test]
fn settled_deliveries_are_not_settled_again() {
    let delivery = |settled| Delivery {
        id: 4,
        settled,
        message_format: 0,
        message: Message::data(vec![1]),
        encoded_message: Vec::new(),
    };
    let accepted = || DeliveryState::Accepted(Accepted);
    assert_eq!(settle_delivery(0, 1, 2, &delivery(true), accepted(), 3), None);
    assert_eq!(
        settle_delivery(0, 1, 2, &delivery(false), accepted(), 3),
        Some(ClientCommand::Settle {
            channel: 0,
            handle: 1,
            incarnation: 2,
            delivery_id: 4,
            state: accepted(),
            ticket: 3,
        })
    );
}

// ---- handshakes ------------------------------------------------------------

fn heard(greeting: Greeting) -> Event {
    match greeting {
        Greeting::Header(header) => Event::Header(
            ProtocolHeader::parse(&header.bytes()).expect("the header is read"),
        ),
        Greeting::Frame(frame) => {
            let octets = encode_frame(&frame).expect("the frame encodes");
            Event::Frame(decode_frame(&octets).expect("the frame decodes"))
        }
        Greeting::Authenticate(_) => panic!("this is for the authenticator"),
    }
}

fn plain() -> SaslInit {
    SaslInit {
        mechanism: Symbol::new("PLAIN"),
        initial_response: Some(b"\0user\0password".to_vec()),
        hostname: None,
    }
}

fn shake_hands(code: SaslCode) -> (Result<(), EngineError>, Phase, Result<(), EngineError>, Phase) {
    let mut accepting = Accepting::new(text("server"), Some(vec![Symbol::new("PLAIN")]));
    let mut from_client = Vec::new();
    let mut opening = Opening::new(text("client"), Some(plain()), &mut from_client);
    let mut from_server = Vec::new();
    let mut served = Ok(());
    let mut opened = Ok(());
    for _ in 0..20 {
        while !from_client.is_empty() && served.is_ok() {
            served = accepting.take(heard(from_client.remove(0)), &mut from_server);
        }
        if let Some(Greeting::Authenticate(init)) = from_server.first() {
            assert_eq!(init, &plain());
            from_server.remove(0);
            served = accepting.take(Event::Code(code), &mut from_server);
        }
        while !from_server.is_empty() && opened.is_ok() {
            if matches!(from_server[0], Greeting::Authenticate(_)) {
                break;
            }
            opened = opening.take(heard(from_server.remove(0)), &mut from_client);
        }
    }
    (served, accepting.phase, opened, opening.phase)
}

#[test]
fn handshakes_open_both_ends() {
    assert_eq!(
        shake_hands(SaslCode::Success),
        (Ok(()), Phase::Opened(262_144), Ok(()), Phase::Opened(262_144))
    );
}

#[test]
fn refused_credentials_end_the_handshake() {
    assert_eq!(
        shake_hands(SaslCode::Auth),
        (
            Err(EngineError::PermissionDenied),
            Phase::Failed,
            Err(EngineError::SaslAuthentication(SaslCode::Auth)),
            Phase::Failed
        )
    );
}

fn fault(fault: StateFault) -> Result<(), EngineError> {
    Err(EngineError::InvalidState(fault))
}

#[test]
fn handshakes_refuse_what_they_do_not_wait_for() {
    let mut said = Vec::new();
    let mut plain_server = Accepting::new(text("server"), None);
    assert_eq!(
        plain_server.take(Event::Header(ProtocolHeader::sasl()), &mut said),
        fault(StateFault::ExpectedProtocol(0, 3))
    );
    let mut server = Accepting::new(text("server"), Some(Vec::new()));
    assert_eq!(
        server.take(Event::Header(ProtocolHeader::amqp()), &mut said),
        fault(StateFault::ExpectedProtocol(3, 0))
    );
    let mechanisms = |name: &str| {
        Event::Frame(Frame::Sasl(SaslPerformative::Mechanisms(SaslMechanisms {
            mechanisms: vec![Symbol::new(name)],
        })))
    };
    let mut server = Accepting::new(text("server"), Some(Vec::new()));
    server.take(Event::Header(ProtocolHeader::sasl()), &mut said).expect("the header fits");
    assert_eq!(server.take(mechanisms("PLAIN"), &mut said), fault(StateFault::ExpectedSaslInit));

    let mut client = Opening::new(text("client"), Some(plain()), &mut said);
    client.take(Event::Header(ProtocolHeader::sasl()), &mut said).expect("the header fits");
    assert_eq!(
        client.take(mechanisms("ANONYMOUS"), &mut said),
        fault(StateFault::MechanismNotOffered)
    );
    let mut client = Opening::new(text("client"), Some(plain()), &mut said);
    client.take(Event::Header(ProtocolHeader::sasl()), &mut said).expect("the header fits");
    let init = || Event::Frame(Frame::Sasl(SaslPerformative::Init(plain())));
    assert_eq!(client.take(init(), &mut said), fault(StateFault::ExpectedSaslMechanisms));
    let mut client = Opening::new(text("client"), Some(plain()), &mut said);
    client.take(Event::Header(ProtocolHeader::sasl()), &mut said).expect("the header fits");
    client.take(mechanisms("PLAIN"), &mut said).expect("the mechanism is offered");
    assert_eq!(client.take(init(), &mut said), fault(StateFault::ExpectedSaslOutcome));
    let mut client = Opening::new(text("client"), None, &mut said);
    client.take(Event::Header(ProtocolHeader::amqp()), &mut said).expect("the header fits");
    assert_eq!(client.take(init(), &mut said), fault(StateFault::ExpectedOpen));
    assert_eq!(client.take(init(), &mut said), fault(StateFault::OutOfTurn));
}

#[test]
fn an_open_is_answered_with_a_workable_frame_size() {
    let mut said = Vec::new();
    let mut server = Accepting::new(text("server"), None);
    server.take(Event::Header(ProtocolHeader::amqp()), &mut said).expect("the header fits");
    let small = Open { max_frame_size: 100, channel_max: 9, ..Open::new(text("client")) };
    let frame = Frame::Amqp {
        channel: 0,
        performative: Some(Performative::Open(small)),
        payload: Vec::new(),
    };
    server.take(Event::Frame(frame), &mut said).expect("the open fits");
    assert_eq!(server.phase, Phase::Opened(100));
    assert_eq!(
        said.pop(),
        Some(Greeting::Frame(Frame::Amqp {
            channel: 0,
            performative: Some(Performative::Open(Open {
                max_frame_size: 512,
                channel_max: 9,
                ..Open::new(text("server"))
            })),
            payload: Vec::new(),
        }))
    );
}

// ---- what a client asks for ------------------------------------------------

#[test]
fn addresses_have_a_host_and_a_port() {
    assert_eq!(
        connection_address("amqp://broker.example/queue"),
        Ok((text("broker.example"), 5672))
    );
    assert_eq!(connection_address("amqp://broker.example:99"), Ok((text("broker.example"), 99)));
    assert_eq!(
        connection_address("not an address"),
        Err(EngineError::InvalidState(StateFault::InvalidAddress))
    );
    assert_eq!(
        connection_address("mailto:someone"),
        Err(EngineError::InvalidState(StateFault::NoHost))
    );
    let uri = Uri {
        scheme: text("amqp"),
        username: String::new(),
        password: None,
        host: Some(text("h")),
        port: None,
        path: String::new(),
        query: None,
        fragment: None,
    };
    assert_eq!(endpoint(uri), Ok((text("h"), 5672)));
}

#[test]
fn builders_have_their_defaults() {
    let builder = ClientConnectionBuilder::default();
    assert_eq!(builder.container_id, "amqp-client");
    assert_eq!(builder.sasl, None);
    let builder = builder.container_id(text("mine")).sasl(plain());
    assert_eq!(builder.container_id, "mine");
    assert_eq!(builder.sasl, Some(plain()));

    let request = ClientReceiverBuilder::default().request();
    assert_eq!(request.name, "receiver");
    assert_eq!(request.role, Role::Receiver);
    assert_eq!(request.source, Some(Source::default()));
    assert_eq!(request.sender_settle_mode, SenderSettleMode::Unsettled);
    let request = ClientReceiverBuilder::default()
        .name(text("mine"))
        .source(Source::new(text("orders")))
        .target(text("here"))
        .sender_settle_mode(SenderSettleMode::Settled)
        .request();
    assert_eq!(request.name, "mine");
    assert_eq!(request.source, Some(Source::new(text("orders"))));
    assert_eq!(request.target, Some(Target::new(text("here"))));
    assert_eq!(request.sender_settle_mode, SenderSettleMode::Settled);
}

#[test]
fn waiting_ends_with_what_comes_first() {
    let sender = Sender {
        name: text("sender"),
        channel: 3,
        handle: 4,
        incarnation: 5,
        pending_confirmation: None,
    };
    let drain = DrainRequest { channel: 3, handle: 4, incarnation: 5, generation: 6 };
    assert_eq!(sender.on_drain(false, None, false), Awaited::Pending);
    for _ in 0..2 {
        assert_eq!(sender.on_drain(false, Some(drain), false), Awaited::Come(drain));
    }
    let detached = EngineError::RemoteDetached;
    assert_eq!(sender.on_drain(true, Some(drain), false), Awaited::Failed(detached));
    assert_eq!(sender.on_drain(false, None, true), Awaited::Failed(EngineError::Stopped));

    let reserve = Command::ReserveCredit { channel: 3, handle: 4, incarnation: 5, ticket: 7 };
    assert_eq!(sender.on_credit(false, true, true, 7), Awaited::Come(reserve));
    assert_eq!(sender.on_credit(false, false, false, 7), Awaited::Pending);
    assert_eq!(sender.on_credit(true, true, false, 7), Awaited::Failed(detached));
    assert_eq!(sender.on_credit(false, false, true, 7), Awaited::Failed(EngineError::Stopped));

    let receiver = Receiver { channel: 3, handle: 4, incarnation: 5 };
    assert!(matches!(receiver.recv(None, true), Err(EngineError::RemoteDetached)));
    assert!(matches!(receiver.recv(None, false), Err(EngineError::Stopped)));
}

#[test]
fn a_later_request_takes_the_place_of_an_earlier_one() {
    let mut client = Client::new(512);
    let mut actions = Vec::new();
    let attach = |channel: u16, ticket: u64| ClientCommand::Attach {
        channel,
        request: AttachRequest::sender(text("link"), Target::new(text("orders"))),
        ticket,
    };
    let detach = |incarnation: u64, ticket: u64| ClientCommand::Detach {
        channel: 0,
        handle: 0,
        incarnation,
        ticket,
    };
    client.handle_command(ClientCommand::Begin { ticket: 1 }, 1, 2, &mut actions);
    assert_eq!(client.displaced(&attach(0, 2)), None);
    client.handle_command(attach(0, 2), 3, 4, &mut actions);
    assert_eq!(client.displaced(&attach(0, 3)), Some(2));
    assert_eq!(client.displaced(&attach(9, 3)), None);
    client.handle_command(detach(4, 5), 5, 6, &mut actions);
    assert_eq!(client.displaced(&detach(4, 6)), Some(5));
    assert_eq!(client.displaced(&detach(7, 6)), None);
    client.handle_command(ClientCommand::Close { ticket: 7 }, 7, 8, &mut actions);
    assert_eq!(client.displaced(&ClientCommand::Close { ticket: 8 }), Some(7));
}
