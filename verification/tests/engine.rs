use switchyard::amqp::engine::{Command, Engine, Verdict};
use switchyard::amqp::endpoint::{LinkEndpoint, PendingDelivery, ServerSession};
use switchyard::amqp::entries::OrderedMap;
use switchyard::amqp::frame::Frame;
use switchyard::amqp::link::{
    Action, CreditReservationIdentity, DeliveryIdentity, DrainRequest, EngineError, LinkDrain,
    LinkState, PendingConfirmation, QueuedSend, ReceivingLink, Reply, SendingLink, StateFault,
    SESSION_WINDOW,
};
use switchyard::amqp::message::encode_message;
use switchyard::amqp::session::{
    apply_disposition, apply_flow, flush_link, receive_transfer, SessionState,
};
use switchyard::amqp::types::{
    Accepted, Attach, Begin, Close, DeliveryState, Detach, Disposition, End, Error, ErrorCondition,
    Fields, Flow, Message, Open, Outcome, Performative, ReceiverSettleMode, Rejected, Released,
    Role, SaslCode, SaslOutcome, SaslPerformative, SenderSettleMode, Source, Target, Transfer,
};
use switchyard::amqp::value::{AmqpValue, Symbol};

const CHANNEL: u16 = 3;
const HANDLE: u32 = 1;
const INCARNATION: u64 = 40;

fn text(text: &str) -> String {
    String::from(text)
}

fn session_with(incarnation: u64, handle: u32, link: LinkState) -> SessionState {
    let mut session = SessionState::new(incarnation);
    session.accepts_links = false;
    session.links.insert(handle, link);
    session
}

fn engine_with(session: SessionState) -> Engine {
    let mut engine = Engine::new(u32::MAX);
    engine.sessions.insert(CHANNEL, session);
    engine
}

fn receiving_engine() -> Engine {
    engine_with(session_with(
        0,
        HANDLE,
        LinkState::Receiving(ReceivingLink {
            incarnation: INCARNATION,
            max_message_size: u64::MAX,
            partial: None,
        }),
    ))
}

fn sending_link(credit_limit: u64) -> SendingLink {
    let mut link = SendingLink::new(
        SenderSettleMode::Unsettled,
        ReceiverSettleMode::First,
        INCARNATION,
    );
    link.credit_limit = credit_limit;
    link
}

fn sending_engine(link: SendingLink) -> Engine {
    engine_with(session_with(0, HANDLE, LinkState::Sending(link)))
}

fn the_sender(engine: &Engine) -> &SendingLink {
    match engine.sessions.get(&CHANNEL).and_then(|session| session.links.get(&HANDLE)) {
        Some(LinkState::Sending(link)) => link,
        _ => panic!("the sending link is attached"),
    }
}

fn queued(marker: u8, message_format: u32, ticket: u64) -> QueuedSend {
    QueuedSend {
        message: Message::data(vec![marker]),
        message_format,
        delivery_tag: vec![marker],
        reservation: None,
        ticket,
    }
}

fn transfer(message_format: Option<u32>, more: bool) -> Transfer {
    Transfer {
        handle: HANDLE,
        delivery_id: Some(1),
        delivery_tag: Some(vec![1]),
        message_format,
        settled: Some(false),
        more,
        rcv_settle_mode: None,
        state: None,
        resume: false,
        aborted: false,
        batchable: false,
    }
}

fn continuation(message_format: Option<u32>) -> Transfer {
    Transfer {
        delivery_id: None,
        delivery_tag: None,
        settled: None,
        ..transfer(message_format, false)
    }
}

fn credit(delivery_count: u32, link_credit: u32, drain: bool) -> Flow {
    Flow {
        handle: Some(HANDLE),
        delivery_count: Some(delivery_count),
        link_credit: Some(link_credit),
        drain,
        ..Flow::default()
    }
}

fn settlement(first: u32, last: Option<u32>, settled: bool, state: DeliveryState) -> Disposition {
    Disposition { role: Role::Receiver, first, last, settled, state: Some(state), batchable: false }
}

fn flow(engine: &mut Engine, flow: Flow) -> Vec<Action> {
    let mut actions = Vec::new();
    apply_flow(&mut engine.sessions, u32::MAX, CHANNEL, flow, &mut actions)
        .expect("the flow is applied");
    actions
}

fn settle(engine: &mut Engine, disposition: Disposition) -> Vec<Action> {
    let mut actions = Vec::new();
    apply_disposition(&mut engine.sessions, CHANNEL, disposition, &mut actions);
    actions
}

fn receive(
    engine: &mut Engine,
    transfer: Transfer,
    payload: Vec<u8>,
) -> Result<Vec<Action>, EngineError> {
    let mut actions = Vec::new();
    receive_transfer(&mut engine.sessions, CHANNEL, transfer, payload, &mut actions)?;
    Ok(actions)
}

fn command(engine: &mut Engine, command: Command) -> Vec<Action> {
    let mut actions = Vec::new();
    assert_eq!(engine.handle_command(command, &mut actions), Verdict::Continue);
    actions
}

fn frame(engine: &mut Engine, performative: Performative, fresh: u64) -> Vec<Action> {
    let mut actions = Vec::new();
    let frame = Frame::Amqp {
        channel: CHANNEL,
        performative: Some(performative),
        payload: Vec::new(),
    };
    assert_eq!(engine.handle_frame(frame, fresh, fresh, &mut actions), Verdict::Continue);
    actions
}

fn replies(actions: &[Action], wanted: u64) -> Vec<&Reply> {
    actions
        .iter()
        .filter_map(|action| match action {
            Action::Reply { ticket, reply } if *ticket == wanted => Some(reply),
            _ => None,
        })
        .collect()
}

fn written(actions: &[Action]) -> Vec<&Performative> {
    actions
        .iter()
        .filter_map(|action| match action {
            Action::Write { performative, .. } => Some(performative),
            _ => None,
        })
        .collect()
}

fn the_flow(actions: &[Action]) -> &Flow {
    written(actions)
        .into_iter()
        .find_map(|performative| match performative {
            Performative::Flow(flow) => Some(flow),
            _ => None,
        })
        .expect("a flow is written")
}

fn the_transfers(actions: &[Action]) -> Vec<&Transfer> {
    written(actions)
        .into_iter()
        .filter_map(|performative| match performative {
            Performative::Transfer(transfer) => Some(transfer),
            _ => None,
        })
        .collect()
}

fn the_delivery(actions: &[Action]) -> &switchyard::amqp::link::Delivery {
    actions
        .iter()
        .find_map(|action| match action {
            Action::Deliver { delivery, .. } => Some(delivery),
            _ => None,
        })
        .expect("a delivery is handed out")
}

fn the_drain(actions: &[Action]) -> Option<DrainRequest> {
    actions
        .iter()
        .rev()
        .find_map(|action| match action {
            Action::Drain { request, .. } => Some(*request),
            _ => None,
        })
        .expect("the sender hears of the drain")
}

fn credit_heard(actions: &[Action]) -> Option<bool> {
    actions.iter().rev().find_map(|action| match action {
        Action::Credit { ready, .. } => Some(*ready),
        _ => None,
    })
}

fn the_reservation(actions: &[Action], ticket: u64) -> CreditReservationIdentity {
    match replies(actions, ticket)[..] {
        [Reply::Reserved(Some(identity))] => *identity,
        _ => panic!("one credit slot is available"),
    }
}

fn attach_of(name: &str, role: Role) -> Attach {
    Attach {
        name: text(name),
        handle: HANDLE,
        role,
        snd_settle_mode: SenderSettleMode::Unsettled,
        rcv_settle_mode: ReceiverSettleMode::First,
        source: Some(Source::new(text("orders"))),
        target: Some(Target::new(text("orders"))),
        unsettled: None,
        incomplete_unsettled: false,
        initial_delivery_count: None,
        max_message_size: None,
        offered_capabilities: None,
        desired_capabilities: None,
        properties: None,
    }
}

fn accept_link(attach: Attach, session_incarnation: u64, incarnation: u64) -> Command {
    Command::AcceptLink {
        channel: CHANNEL,
        session_incarnation,
        incarnation,
        attach,
        max_message_size: 1024,
        properties: None,
        ticket: 5,
    }
}

fn detach_link(incarnation: u64) -> Command {
    Command::Detach { channel: CHANNEL, handle: HANDLE, incarnation, error: None, ticket: 8 }
}

fn is_failed(reply: &Reply, expected: EngineError) -> bool {
    matches!(reply, Reply::Failed(error) if *error == expected)
}

fn is_done(reply: &Reply) -> bool {
    matches!(reply, Reply::Done)
}

// ---- receiving -------------------------------------------------------------

#[test]
fn an_incoming_delivery_retains_its_exact_encoded_message() {
    let message = Message::data(b"wire-exact".to_vec());
    let encoded = encode_message(&message).expect("message encodes");
    let split = encoded.len() / 2;
    let mut engine = receiving_engine();

    let first = receive(&mut engine, transfer(Some(0), true), encoded[..split].to_vec());
    assert_eq!(first.expect("first transfer is accepted"), Vec::new());
    let second = receive(&mut engine, continuation(None), encoded[split..].to_vec())
        .expect("continuation is accepted");

    let delivery = the_delivery(&second);
    assert_eq!(delivery.message_format(), 0);
    assert_eq!(delivery.message(), &message);
    assert_eq!(delivery.encoded_message(), encoded);
}

#[test]
fn a_fragmented_nonzero_message_format_is_preserved() {
    let message_format = 0x8001_3700;
    let message = Message::data(b"formatted-batch".to_vec());
    let encoded = encode_message(&message).expect("message encodes");
    let split = encoded.len() / 2;
    let mut engine = receiving_engine();

    receive(&mut engine, transfer(Some(message_format), true), encoded[..split].to_vec())
        .expect("a nonzero format starts a delivery");
    let second = receive(&mut engine, continuation(None), encoded[split..].to_vec())
        .expect("an omitted continuation format inherits the first transfer");

    let delivery = the_delivery(&second);
    assert_eq!(delivery.message_format(), message_format);
    assert_eq!(delivery.message(), &message);
    assert_eq!(delivery.encoded_message(), encoded);
}

#[test]
fn a_continuation_cannot_change_a_nonzero_message_format() {
    let mut engine = receiving_engine();
    receive(&mut engine, transfer(Some(0x8001_3700), true), vec![0])
        .expect("a nonzero format starts a delivery");
    let error = receive(&mut engine, continuation(Some(0x8001_3701)), Vec::new())
        .expect_err("a continuation cannot change message format");
    assert!(matches!(error, EngineError::InvalidState(_)));
    assert_eq!(error, EngineError::InvalidState(StateFault::FormatChanged));
}

#[test]
fn an_aborted_delivery_leaves_nothing() {
    let mut engine = receiving_engine();
    receive(&mut engine, transfer(Some(0), true), vec![0]).expect("a delivery starts");
    let aborted = Transfer { aborted: true, ..continuation(None) };
    assert_eq!(receive(&mut engine, aborted, vec![1]), Ok(Vec::new()));
    let error = receive(&mut engine, continuation(None), vec![2]).expect_err("nothing to go on");
    assert_eq!(error, EngineError::InvalidState(StateFault::NoDeliveryId));
}

#[test]
fn a_message_beyond_the_limit_is_refused() {
    let mut engine = engine_with(session_with(
        0,
        HANDLE,
        LinkState::Receiving(ReceivingLink {
            incarnation: INCARNATION,
            max_message_size: 4,
            partial: None,
        }),
    ));
    let error = receive(&mut engine, transfer(Some(0), true), vec![0; 5])
        .expect_err("the message is too large");
    assert_eq!(error, EngineError::InvalidState(StateFault::MessageTooLarge));
}

#[test]
fn transfers_go_to_receiving_links_alone() {
    let mut engine = sending_engine(sending_link(0));
    assert_eq!(
        receive(&mut engine, transfer(Some(0), false), vec![0]),
        Err(EngineError::InvalidState(StateFault::TransferToSender))
    );
    let late = Transfer { handle: 9, ..transfer(Some(0), false) };
    assert_eq!(receive(&mut engine, late, vec![0]), Ok(Vec::new()));
    let mut nobody = Engine::new(u32::MAX);
    assert_eq!(
        receive(&mut nobody, transfer(Some(0), false), vec![0]),
        Err(EngineError::InvalidState(StateFault::TransferOnUnknownSession))
    );
}

// ---- sending ---------------------------------------------------------------

#[test]
fn a_queued_send_starts_only_after_link_credit_is_consumed() {
    let mut link = sending_link(0);
    link.queued.push(queued(7, 0x8001_3700, 1));
    let mut engine = sending_engine(link);

    let mut actions = Vec::new();
    flush_link(&mut engine.sessions, u32::MAX, CHANNEL, HANDLE, &mut actions)
        .expect("a send without credit remains queued");
    assert!(replies(&actions, 1).is_empty());

    let flowed = flow(&mut engine, credit(0, 1, false));
    let identity = match replies(&flowed, 1)[..] {
        [Reply::Started(identity)] => *identity,
        _ => panic!("the transfer starts"),
    };
    assert_eq!(identity.delivery_id(), 0);
    let transfers = the_transfers(&flowed);
    assert_eq!(transfers.len(), 1);
    assert_eq!(transfers[0].message_format, Some(0x8001_3700));

    let settled = settle(
        &mut engine,
        settlement(identity.delivery_id(), None, true, DeliveryState::Accepted(Accepted)),
    );
    assert_eq!(
        replies(&settled, 1),
        vec![&Reply::Settled(Outcome::Accepted(Accepted), None)]
    );
}

#[test]
fn three_unsettled_deliveries_complete_out_of_order() {
    let mut link = sending_link(3);
    for marker in 1..4 {
        link.queued.push(queued(marker, 0, marker as u64));
    }
    let mut engine = sending_engine(link);
    let mut actions = Vec::new();
    flush_link(&mut engine.sessions, u32::MAX, CHANNEL, HANDLE, &mut actions)
        .expect("all three sends consume credit");

    for (ticket, expected_id) in [(1, 0), (2, 1), (3, 2)] {
        assert_eq!(
            replies(&actions, ticket),
            vec![&Reply::Started(DeliveryIdentity {
                channel: CHANNEL,
                handle: HANDLE,
                delivery_id: expected_id,
            })]
        );
    }
    let sent: Vec<Option<u32>> =
        the_transfers(&actions).iter().map(|transfer| transfer.delivery_id).collect();
    assert_eq!(sent, vec![Some(0), Some(1), Some(2)]);

    let third = settle(
        &mut engine,
        settlement(2, None, true, DeliveryState::Released(Released)),
    );
    assert_eq!(
        replies(&third, 3),
        vec![&Reply::Settled(Outcome::Released(Released), None)]
    );
    let first = settle(
        &mut engine,
        settlement(0, None, true, DeliveryState::Accepted(Accepted)),
    );
    assert_eq!(
        replies(&first, 1),
        vec![&Reply::Settled(Outcome::Accepted(Accepted), None)]
    );
    let second = settle(
        &mut engine,
        settlement(1, None, true, DeliveryState::Rejected(Rejected::default())),
    );
    assert_eq!(
        replies(&second, 2),
        vec![&Reply::Settled(Outcome::Rejected(Rejected::default()), None)]
    );
    assert_eq!(the_sender(&engine).unsettled.len(), 0);
}

#[test]
fn a_message_is_cut_into_frames_that_fit() {
    let mut link = sending_link(1);
    link.queued.push(QueuedSend { message: Message::data(vec![7; 50]), ..queued(7, 0, 1) });
    let mut engine = sending_engine(link);
    let mut actions = Vec::new();
    flush_link(&mut engine.sessions, 532, CHANNEL, HANDLE, &mut actions).expect("it is sent");
    let transfers = the_transfers(&actions);
    assert_eq!(transfers.len(), 3);
    assert_eq!(transfers[0].delivery_id, Some(0));
    assert_eq!(transfers[0].delivery_tag, Some(vec![7]));
    assert!(transfers[0].more && transfers[1].more && !transfers[2].more);
    assert_eq!(transfers[1].delivery_id, None);

    let mut receiver = receiving_engine();
    let mut delivered = Vec::new();
    for action in actions {
        if let Action::Write { performative: Performative::Transfer(part), payload, .. } = action {
            assert!(payload.len() <= 20);
            delivered = receive(&mut receiver, part, payload).expect("the part arrives");
        }
    }
    let delivery = the_delivery(&delivered);
    assert_eq!(delivery.message(), &Message::data(vec![7; 50]));
    assert_eq!(delivery.id, 0);
}

#[test]
fn settled_sends_are_answered_at_once() {
    let mut link = sending_link(1);
    link.settle_mode = SenderSettleMode::Settled;
    link.queued.push(queued(7, 0, 1));
    let mut engine = sending_engine(link);
    let mut actions = Vec::new();
    flush_link(&mut engine.sessions, u32::MAX, CHANNEL, HANDLE, &mut actions).expect("it is sent");
    assert_eq!(the_transfers(&actions)[0].settled, Some(true));
    assert_eq!(replies(&actions, 1).len(), 2);
    assert_eq!(replies(&actions, 1)[1], &Reply::Settled(Outcome::Accepted(Accepted), None));
    assert_eq!(the_sender(&engine).unsettled.len(), 0);
}

#[test]
fn second_mode_rejection_waits_for_an_accepted_confirmation() {
    let delivery_id = 7;
    let mut link = sending_link(0);
    link.receiver_settle_mode = ReceiverSettleMode::Second;
    link.unsettled.insert(delivery_id, 1);
    let mut engine = sending_engine(link);
    let mut info: Fields = OrderedMap::new();
    info.insert(Symbol::new("dead-letter-reason"), AmqpValue::String(text("InvalidOrder")));
    let rejected = Rejected {
        error: Some(Error::new(
            ErrorCondition::Custom(Symbol::new("com.microsoft:dead-letter")),
            text("the order has no customer"),
            Some(info),
        )),
    };

    let told = settle(
        &mut engine,
        Disposition {
            batchable: true,
            ..settlement(delivery_id, None, false, DeliveryState::Rejected(rejected.clone()))
        },
    );
    let confirmation = match replies(&told, 1)[..] {
        [Reply::Settled(outcome, Some(confirmation))] => {
            assert_eq!(outcome, &Outcome::Rejected(rejected));
            *confirmation
        }
        _ => panic!("second mode leaves confirmation to the application"),
    };
    assert_eq!(confirmation.delivery_id, delivery_id);
    assert_eq!(confirmation.handle, HANDLE);
    assert!(confirmation.batchable);

    let confirmed = command(
        &mut engine,
        Command::Confirm {
            channel: CHANNEL,
            handle: confirmation.handle,
            incarnation: confirmation.incarnation,
            delivery_id: confirmation.delivery_id,
            state: DeliveryState::Accepted(Accepted),
            batchable: confirmation.batchable,
            ticket: 2,
        },
    );
    assert!(is_done(replies(&confirmed, 2)[0]));
    assert_eq!(
        confirmed[0],
        Action::Write {
            channel: CHANNEL,
            performative: Performative::Disposition(Disposition {
                role: Role::Sender,
                first: delivery_id,
                last: None,
                settled: true,
                state: Some(DeliveryState::Accepted(Accepted)),
                batchable: true,
            }),
            payload: Vec::new(),
        }
    );
}

#[test]
fn first_mode_rejection_needs_no_confirmation() {
    let mut link = sending_link(0);
    link.unsettled.insert(7, 1);
    let mut engine = sending_engine(link);
    let told = settle(
        &mut engine,
        settlement(7, None, false, DeliveryState::Rejected(Rejected::default())),
    );
    assert_eq!(
        replies(&told, 1),
        vec![&Reply::Settled(Outcome::Rejected(Rejected::default()), None)]
    );
}

#[test]
fn a_range_disposition_completes_only_matching_deliveries() {
    let mut link = sending_link(4);
    link.delivery_count = 4;
    for (id, ticket) in [(9, 1), (10, 2), (11, 3), (12, 4)] {
        link.unsettled.insert(id, ticket);
    }
    let mut engine = sending_engine(link);
    let told = settle(
        &mut engine,
        settlement(10, Some(12), true, DeliveryState::Accepted(Accepted)),
    );
    for ticket in [2, 3, 4] {
        assert_eq!(
            replies(&told, ticket),
            vec![&Reply::Settled(Outcome::Accepted(Accepted), None)]
        );
    }
    assert!(replies(&told, 1).is_empty());
    assert_eq!(the_sender(&engine).unsettled.get(&9), Some(&1));
    assert_eq!(the_sender(&engine).unsettled.len(), 1);
}

#[test]
fn detach_fails_queued_and_unsettled_sends_and_releases_capacity() {
    let mut link = sending_link(1);
    link.delivery_count = 1;
    link.queued.push(queued(1, 0, 1));
    link.unsettled.insert(0, 2);
    let mut engine = sending_engine(link);

    let told = frame(
        &mut engine,
        Performative::Detach(Detach { handle: HANDLE, closed: true, error: None }),
        0,
    );
    assert_eq!(
        replies(&told, 1),
        vec![
            &Reply::NotStarted(EngineError::RemoteDetached),
            &Reply::Failed(EngineError::RemoteDetached)
        ]
    );
    assert_eq!(replies(&told, 2), vec![&Reply::Failed(EngineError::RemoteDetached)]);
    assert_eq!(told[0], Action::Detached { link: INCARNATION });
}

#[test]
fn a_send_command_crossing_a_detach_gets_a_detach_error() {
    let mut engine = engine_with(SessionState::new(0));
    let told = command(
        &mut engine,
        Command::Send {
            channel: CHANNEL,
            handle: HANDLE,
            incarnation: 0,
            message: Message::data(vec![1]),
            message_format: 0,
            delivery_tag: vec![1],
            reservation: None,
            ticket: 1,
        },
    );
    assert_eq!(
        replies(&told, 1),
        vec![
            &Reply::NotStarted(EngineError::RemoteDetached),
            &Reply::Failed(EngineError::RemoteDetached)
        ]
    );
}

#[test]
fn a_confirmation_is_sendable_and_bound_to_its_delivery_identity() {
    let identity = DeliveryIdentity { channel: 3, handle: 1, delivery_id: 7 };
    let pending = PendingDelivery { identity };
    let outcome = pending.resolve(
        Outcome::Accepted(Accepted),
        Some(PendingConfirmation {
            handle: identity.handle(),
            incarnation: 11,
            delivery_id: identity.delivery_id(),
            batchable: true,
        }),
    );
    assert_eq!(outcome.identity(), identity);
    assert!(outcome.needs_confirmation());
    let (_, _, confirmation) = outcome.into_parts();
    let confirmation = confirmation.expect("second mode returns a confirmation");
    assert_eq!(confirmation.identity(), identity);
    assert_eq!(
        confirmation.confirm(DeliveryState::Accepted(Accepted), 9),
        Command::Confirm {
            channel: identity.channel(),
            handle: identity.handle(),
            incarnation: 11,
            delivery_id: identity.delivery_id(),
            state: DeliveryState::Accepted(Accepted),
            batchable: true,
            ticket: 9,
        }
    );
}

// ---- credit ----------------------------------------------------------------

#[test]
fn link_credit_arriving_during_attach_is_applied_when_the_link_is_accepted() {
    let mut session = SessionState::new(0);
    session.pending_attaches.insert(HANDLE, 7);
    let mut engine = engine_with(session);

    flow(&mut engine, credit(0, 50, false));
    assert!(engine.sessions.get(&CHANNEL).unwrap().pending_flows.contains(&HANDLE));

    let told = command(
        &mut engine,
        accept_link(
            Attach {
                name: text("response"),
                snd_settle_mode: SenderSettleMode::Settled,
                source: Some(Source::new(text("node"))),
                target: Some(Target::new(text("reply-to"))),
                ..attach_of("response", Role::Receiver)
            },
            0,
            7,
        ),
    );
    assert_eq!(replies(&told, 5), vec![&Reply::Attached(7)]);
    assert_eq!(engine.sessions.get(&CHANNEL).unwrap().pending_flows.len(), 0);
    assert_eq!(the_sender(&engine).credit_limit, 50);
}

#[test]
fn drain_acknowledgement_is_generation_bound_and_returns_unused_credit() {
    let mut link = sending_link(2);
    link.delivery_count = 2;
    let mut engine = sending_engine(link);
    engine.sessions.get_mut(&CHANNEL).unwrap().next_outgoing_id = 2;

    flow(&mut engine, credit(2, 4, true));
    let current = the_drain(&flow(&mut engine, credit(2, 5, true))).expect("drain is asserted");
    let stale = DrainRequest { generation: current.generation.wrapping_sub(1), ..current };

    let told = command(&mut engine, Command::Drained { request: stale, ticket: 1 });
    assert_eq!(told, vec![Action::Reply { ticket: 1, reply: Reply::Done }]);
    assert_eq!(the_sender(&engine).drain.current.map(|pending| pending.request), Some(current));

    let replaced = DrainRequest { incarnation: current.incarnation.wrapping_add(1), ..current };
    let told = command(&mut engine, Command::Drained { request: replaced, ticket: 2 });
    assert!(is_failed(
        replies(&told, 2)[0],
        EngineError::InvalidState(StateFault::ReplacedDrain)
    ));
    assert_eq!(the_sender(&engine).drain.current.map(|pending| pending.request), Some(current));

    let told = command(&mut engine, Command::Drained { request: current, ticket: 3 });
    assert!(is_done(replies(&told, 3)[0]));
    assert_eq!(
        told[0],
        Action::Write {
            channel: CHANNEL,
            performative: Performative::Flow(Flow {
                next_incoming_id: Some(0),
                incoming_window: SESSION_WINDOW,
                next_outgoing_id: 2,
                outgoing_window: SESSION_WINDOW,
                handle: Some(HANDLE),
                delivery_count: Some(7),
                link_credit: Some(0),
                available: None,
                drain: true,
                echo: false,
                properties: None,
            }),
            payload: Vec::new(),
        }
    );
    assert_eq!(the_drain(&told), None);
    let link = the_sender(&engine);
    assert_eq!(link.delivery_count, 7);
    assert_eq!(link.credit_limit, 7);
    assert!(link.drain.current.is_none());
}

#[test]
fn a_drain_can_complete_after_queued_transfers_exhaust_credit() {
    let mut link = sending_link(0);
    for marker in 1..4 {
        link.queued.push(queued(marker, 0, marker as u64));
    }
    let mut engine = sending_engine(link);
    let told = flow(&mut engine, credit(0, 2, true));

    assert!(matches!(replies(&told, 1)[..], [Reply::Started(_)]));
    assert!(matches!(replies(&told, 2)[..], [Reply::Started(_)]));
    assert!(replies(&told, 3).is_empty());
    assert_eq!(the_drain(&told), None);
    assert_ne!(credit_heard(&told), Some(true));

    let frames = written(&told);
    assert!(matches!(frames[0], Performative::Transfer(part) if part.delivery_id == Some(0)));
    assert!(matches!(frames[1], Performative::Transfer(part) if part.delivery_id == Some(1)));
    let drained = the_flow(&told);
    assert_eq!(drained.delivery_count, Some(2));
    assert_eq!(drained.link_credit, Some(0));
    assert_eq!(drained.handle, Some(HANDLE));
    assert_eq!(drained.next_outgoing_id, 2);
    assert!(drained.drain);

    assert_eq!(engine.sessions.get(&CHANNEL).unwrap().next_outgoing_id, 2);
    assert_eq!(the_sender(&engine).delivery_count, 2);
    assert_eq!(the_sender(&engine).queued.len(), 1);
}

fn reserve(ticket: u64) -> Command {
    Command::ReserveCredit {
        channel: CHANNEL,
        handle: HANDLE,
        incarnation: INCARNATION,
        ticket,
    }
}

fn send_reserved(reservation: CreditReservationIdentity, ticket: u64) -> Command {
    Command::Send {
        channel: CHANNEL,
        handle: HANDLE,
        incarnation: INCARNATION,
        message: Message::data(vec![7]),
        message_format: 0,
        delivery_tag: vec![7],
        reservation: Some(reservation),
        ticket,
    }
}

#[test]
fn a_reserved_slot_survives_credit_revoke_and_drain_until_sent() {
    let mut engine = sending_engine(sending_link(0));
    let told = flow(&mut engine, credit(0, 1, false));
    assert_eq!(credit_heard(&told), Some(true));

    let canceled = the_reservation(&command(&mut engine, reserve(1)), 1);
    let mut actions = Vec::new();
    engine.cancel_reservation(canceled, &mut actions);
    assert_eq!(the_sender(&engine).credit_reservations.len(), 0);
    assert_eq!(credit_heard(&actions), Some(true));

    let told = command(&mut engine, reserve(2));
    let reservation = the_reservation(&told, 2);
    assert_eq!(credit_heard(&told), Some(false));

    let drain = the_drain(&flow(&mut engine, credit(0, 0, true))).expect("the drain is sticky");

    let told = command(&mut engine, send_reserved(reservation, 3));
    assert!(matches!(replies(&told, 3)[..], [Reply::Started(id)] if id.delivery_id() == 0));
    let frames = written(&told);
    assert!(matches!(frames[0], Performative::Transfer(part) if part.delivery_id == Some(0)));
    let drained = the_flow(&told);
    assert_eq!(drained.handle, Some(HANDLE));
    assert_eq!(drained.delivery_count, Some(1));
    assert_eq!(drained.link_credit, Some(0));
    assert_eq!(drained.next_outgoing_id, 1);
    assert!(drained.drain);
    assert_eq!(the_drain(&told), None);

    let told = command(&mut engine, Command::Drained { request: drain, ticket: 4 });
    assert_eq!(told, vec![Action::Reply { ticket: 4, reply: Reply::Done }]);
}

#[test]
fn releasing_empty_source_reservation_completes_a_zero_credit_drain() {
    let mut engine = sending_engine(sending_link(0));
    flow(&mut engine, credit(0, 1, false));
    let reservation = the_reservation(&command(&mut engine, reserve(1)), 1);
    assert!(the_drain(&flow(&mut engine, credit(0, 0, true))).is_some());

    let told = command(
        &mut engine,
        Command::ReleaseCredit { reservation, ticket: Some(2) },
    );
    assert!(is_done(replies(&told, 2)[0]));
    assert_eq!(
        told[0],
        Action::Write {
            channel: CHANNEL,
            performative: Performative::Flow(Flow {
                next_incoming_id: Some(0),
                incoming_window: SESSION_WINDOW,
                next_outgoing_id: 0,
                outgoing_window: SESSION_WINDOW,
                handle: Some(HANDLE),
                delivery_count: Some(0),
                link_credit: Some(0),
                available: None,
                drain: true,
                echo: false,
                properties: None,
            }),
            payload: Vec::new(),
        }
    );
    assert_eq!(the_drain(&told), None);
    assert!(!the_sender(&engine).credit_ready);
}

#[test]
fn a_dropped_reservation_is_released_without_an_answer() {
    let mut engine = sending_engine(sending_link(0));
    flow(&mut engine, credit(0, 1, false));
    let reservation = the_reservation(&command(&mut engine, reserve(1)), 1);
    flow(&mut engine, credit(0, 0, true));

    let told = command(&mut engine, Command::ReleaseCredit { reservation, ticket: None });
    let drained = the_flow(&told);
    assert_eq!(drained.handle, Some(HANDLE));
    assert_eq!(drained.delivery_count, Some(0));
    assert_eq!(drained.link_credit, Some(0));
    assert!(drained.drain);
    assert_eq!(the_drain(&told), None);
    assert!(told.iter().all(|action| !matches!(action, Action::Reply { .. })));
    assert_eq!(the_sender(&engine).credit_reservations.len(), 0);
}

#[test]
fn live_reservations_hold_up_a_drain() {
    let mut engine = sending_engine(sending_link(0));
    flow(&mut engine, credit(0, 2, false));
    the_reservation(&command(&mut engine, reserve(1)), 1);
    let drain = the_drain(&flow(&mut engine, credit(0, 2, true))).expect("a drain");
    let told = command(&mut engine, Command::Drained { request: drain, ticket: 2 });
    assert!(is_failed(
        replies(&told, 2)[0],
        EngineError::InvalidState(StateFault::LiveReservations)
    ));
}

#[test]
fn reserved_deliveries_go_before_others_and_once() {
    let mut engine = sending_engine(sending_link(0));
    flow(&mut engine, credit(0, 1, false));
    let reservation = the_reservation(&command(&mut engine, reserve(1)), 1);
    let none = command(&mut engine, reserve(2));
    assert_eq!(replies(&none, 2), vec![&Reply::Reserved(None)]);

    let waiting = command(
        &mut engine,
        Command::Send {
            channel: CHANNEL,
            handle: HANDLE,
            incarnation: INCARNATION,
            message: Message::data(vec![1]),
            message_format: 0,
            delivery_tag: vec![1],
            reservation: None,
            ticket: 3,
        },
    );
    assert!(replies(&waiting, 3).is_empty());
    let sent = command(&mut engine, send_reserved(reservation, 4));
    assert!(matches!(replies(&sent, 4)[..], [Reply::Started(_)]));
    assert!(replies(&sent, 3).is_empty());
    let again = command(&mut engine, send_reserved(reservation, 5));
    assert_eq!(
        replies(&again, 5)[1],
        &Reply::Failed(EngineError::InvalidState(StateFault::InvalidReservation))
    );
}

#[test]
fn a_drain_waits_for_what_is_queued() {
    let mut link = sending_link(5);
    link.drain = LinkDrain::with_incarnation(INCARNATION);
    let mut engine = sending_engine(link);
    let drain = the_drain(&flow(&mut engine, credit(0, 5, true))).expect("a drain");
    let session = engine.sessions.get_mut(&CHANNEL).unwrap();
    if let Some(LinkState::Sending(link)) = session.links.get_mut(&HANDLE) {
        link.queued.push(queued(1, 0, 9));
    }
    let told = command(&mut engine, Command::Drained { request: drain, ticket: 1 });
    assert!(is_failed(
        replies(&told, 1)[0],
        EngineError::InvalidState(StateFault::QueuedDeliveries)
    ));
}

// ---- handles and channels that are used again ------------------------------

#[test]
fn a_stale_sender_detach_cannot_remove_a_reused_handle() {
    let mut engine = sending_engine(sending_link(0));
    let told = command(&mut engine, detach_link(INCARNATION + 1));
    assert!(is_done(replies(&told, 8)[0]));
    assert_eq!(the_sender(&engine).drain.incarnation, INCARNATION);
    assert!(written(&told).is_empty());

    let told = command(&mut engine, detach_link(INCARNATION));
    assert!(is_done(replies(&told, 8)[0]));
    assert!(!engine.sessions.get(&CHANNEL).unwrap().links.contains(&HANDLE));
    assert_eq!(
        written(&told),
        vec![&Performative::Detach(Detach { handle: HANDLE, closed: true, error: None })]
    );
}

#[test]
fn a_stale_receiver_detach_cannot_remove_a_reused_handle() {
    let mut engine = receiving_engine();
    let told = command(&mut engine, detach_link(INCARNATION + 1));
    assert!(is_done(replies(&told, 8)[0]));
    assert!(engine.sessions.get(&CHANNEL).unwrap().links.contains(&HANDLE));
    assert!(written(&told).is_empty());

    let told = command(&mut engine, detach_link(INCARNATION));
    assert!(is_done(replies(&told, 8)[0]));
    assert!(!engine.sessions.get(&CHANNEL).unwrap().links.contains(&HANDLE));
    assert_eq!(
        written(&told),
        vec![&Performative::Detach(Detach { handle: HANDLE, closed: true, error: None })]
    );
}

#[test]
fn an_ended_pending_session_cannot_accept_across_channel_reuse() {
    let mut engine = Engine::new(u32::MAX);
    let begun = frame(&mut engine, Performative::Begin(Begin::default()), 21);
    assert!(matches!(begun[..], [Action::Begun { channel: CHANNEL, incarnation: 21, .. }]));
    let ended = frame(&mut engine, Performative::End(End::default()), 0);
    assert_eq!(written(&ended), vec![&Performative::End(End::default())]);
    frame(&mut engine, Performative::Begin(Begin::default()), 22);

    let told = command(
        &mut engine,
        Command::AcceptSession { channel: CHANNEL, incarnation: 21, ticket: 1 },
    );
    assert_eq!(
        told,
        vec![Action::Reply { ticket: 1, reply: Reply::Failed(EngineError::RemoteDetached) }]
    );
    assert_eq!(engine.sessions.len(), 0);
    assert_eq!(engine.pending_sessions.get(&CHANNEL), Some(&22));

    let told = command(
        &mut engine,
        Command::AcceptSession { channel: CHANNEL, incarnation: 22, ticket: 2 },
    );
    assert!(is_done(replies(&told, 2)[0]));
    assert_eq!(engine.sessions.get(&CHANNEL).unwrap().incarnation, 22);
    assert!(matches!(written(&told)[..], [Performative::Begin(begin)]
        if begin.remote_channel == Some(CHANNEL)));
}

#[test]
fn a_stale_session_cannot_install_a_link_into_its_replacement() {
    let mut session = SessionState::new(22);
    session.pending_attaches.insert(1, 44);
    let mut engine = engine_with(session);
    let told = command(
        &mut engine,
        accept_link(
            Attach {
                source: None,
                initial_delivery_count: Some(0),
                ..attach_of("stale", Role::Sender)
            },
            21,
            44,
        ),
    );
    assert_eq!(
        told,
        vec![Action::Reply { ticket: 5, reply: Reply::Failed(EngineError::RemoteDetached) }]
    );
    assert_eq!(engine.sessions.get(&CHANNEL).unwrap().links.len(), 0);
}

#[test]
fn a_detached_pending_attach_cannot_cross_handle_reuse() {
    let mut engine = engine_with(SessionState::new(22));
    let first = Attach { target: None, ..attach_of("first", Role::Receiver) };
    let second = Attach { target: None, ..attach_of("second", Role::Receiver) };

    let attached = frame(&mut engine, Performative::Attach(Box::new(first.clone())), 31);
    assert!(matches!(attached[..], [Action::Attached { session: 22, incarnation: 31, .. }]));
    flow(&mut engine, credit(0, 10, false));
    assert!(engine.sessions.get(&CHANNEL).unwrap().pending_flows.contains(&HANDLE));

    let detached = frame(
        &mut engine,
        Performative::Detach(Detach { handle: HANDLE, closed: true, error: None }),
        0,
    );
    assert_eq!(written(&detached).len(), 1);
    assert!(!engine.sessions.get(&CHANNEL).unwrap().pending_attaches.contains(&HANDLE));
    assert!(!engine.sessions.get(&CHANNEL).unwrap().pending_flows.contains(&HANDLE));

    flow(&mut engine, credit(0, 99, false));
    assert!(!engine.sessions.get(&CHANNEL).unwrap().pending_flows.contains(&HANDLE));

    frame(&mut engine, Performative::Attach(Box::new(second.clone())), 32);
    let stale = command(&mut engine, accept_link(first, 22, 31));
    assert!(is_failed(replies(&stale, 5)[0], EngineError::RemoteDetached));
    assert_eq!(
        engine.sessions.get(&CHANNEL).unwrap().pending_attaches.get(&HANDLE),
        Some(&32)
    );

    let accepted = command(&mut engine, accept_link(second, 22, 32));
    assert_eq!(replies(&accepted, 5), vec![&Reply::Attached(32)]);
    assert_eq!(the_sender(&engine).credit_limit, 0, "stale Flow credit crossed link reuse");
}

#[test]
fn settlement_after_session_end_is_link_scoped() {
    let mut engine = Engine::new(u32::MAX);
    let told = command(
        &mut engine,
        Command::Settle {
            channel: 3,
            handle: 1,
            incarnation: 9,
            delivery_id: 7,
            state: DeliveryState::Accepted(Accepted),
            ticket: 1,
        },
    );
    assert_eq!(
        told,
        vec![Action::Reply { ticket: 1, reply: Reply::Failed(EngineError::RemoteDetached) }]
    );
}

// ---- connections -----------------------------------------------------------

fn verdict(engine: &mut Engine, frame: Frame) -> Verdict {
    engine.handle_frame(frame, 1, 2, &mut Vec::new())
}

fn amqp(performative: Performative) -> Frame {
    Frame::Amqp { channel: CHANNEL, performative: Some(performative), payload: Vec::new() }
}

#[test]
fn faulty_frames_end_the_connection() {
    let fault = |fault| Verdict::Failed(EngineError::InvalidState(fault));
    let mut engine = Engine::new(u32::MAX);
    let sasl = Frame::Sasl(SaslPerformative::Outcome(SaslOutcome {
        code: SaslCode::Success,
        additional_data: None,
    }));
    assert_eq!(verdict(&mut engine, sasl), fault(StateFault::SaslAfterOpen));
    assert_eq!(
        verdict(&mut engine, amqp(Performative::Open(Open::new(text("again"))))),
        fault(StateFault::DuplicateOpen)
    );
    let attach = || amqp(Performative::Attach(Box::new(attach_of("a", Role::Sender))));
    assert_eq!(verdict(&mut engine, attach()), fault(StateFault::AttachOnUnknownSession));
    assert_eq!(
        verdict(&mut engine, amqp(Performative::Begin(Begin::default()))),
        Verdict::Continue
    );
    assert_eq!(
        verdict(&mut engine, amqp(Performative::Begin(Begin::default()))),
        fault(StateFault::DuplicateChannel)
    );
    let mut closed = engine_with(session_with(0, 7, LinkState::Sending(sending_link(0))));
    assert_eq!(verdict(&mut closed, attach()), fault(StateFault::NoRemoteLinks));
    assert_eq!(verdict(&mut closed, attach()), fault(StateFault::HandleInUse));
}

#[test]
fn a_close_is_answered_from_either_end() {
    let mut engine = Engine::new(u32::MAX);
    let mut actions = Vec::new();
    let frame = amqp(Performative::Close(Close::default()));
    assert_eq!(engine.handle_frame(frame, 0, 0, &mut actions), Verdict::Closed);
    assert_eq!(written(&actions), vec![&Performative::Close(Close::default())]);

    let mut actions = Vec::new();
    assert_eq!(
        engine.handle_command(Command::Close { error: None, ticket: 6 }, &mut actions),
        Verdict::Closing(6)
    );
    let mut stopped = Vec::new();
    engine.stop(Some(6), &mut stopped);
    assert_eq!(replies(&stopped, 6), vec![&Reply::Failed(EngineError::RemoteClosed)]);
}

#[test]
fn a_peer_that_sends_is_granted_credit() {
    let mut session = SessionState::new(22);
    session.pending_attaches.insert(HANDLE, 44);
    let mut engine = engine_with(session);
    let told = command(&mut engine, accept_link(attach_of("in", Role::Sender), 22, 44));
    assert_eq!(the_flow(&told).link_credit, Some(2048));
    assert!(matches!(written(&told)[0], Performative::Attach(answer)
        if answer.role == Role::Receiver && answer.max_message_size == Some(1024)));
}

#[test]
fn a_session_accepts_what_it_was_handed() {
    let mut session = ServerSession::new(CHANNEL, 22);
    assert_eq!(
        session.accept_attach(attach_of("in", Role::Sender), 1024, 5),
        Err(EngineError::InvalidState(StateFault::AttachNotReceived))
    );
    session.hand_out(HANDLE, 22, 44);
    session.hand_out(HANDLE, 21, 45);
    let (command, endpoint) = session
        .accept_attach(attach_of("in", Role::Sender), 1024, 5)
        .expect("the first attach is accepted");
    assert!(matches!(command, Command::AcceptLink { incarnation: 44, .. }));
    assert!(matches!(endpoint, LinkEndpoint::Receiver(_)));
    assert_eq!(
        session.accept_attach_with_properties(attach_of("in", Role::Receiver), 1024, None, 6),
        Err(EngineError::RemoteDetached)
    );
}

#[test]
fn a_flush_sends_what_there_is_credit_for() {
    let mut link = sending_link(0);
    link.queued = vec![queued(1, 0, 11), queued(2, 0, 12), queued(3, 0, 13)];
    let mut engine = sending_engine(link);
    let told = flow(&mut engine, credit(0, 2, false));
    for (ticket, delivery_id) in [(11, 0), (12, 1)] {
        let identity = DeliveryIdentity { channel: CHANNEL, handle: HANDLE, delivery_id };
        assert_eq!(replies(&told, ticket), vec![&Reply::Started(identity)]);
    }
    assert!(replies(&told, 13).is_empty());
    assert_eq!(the_sender(&engine).queued.len(), 1);
    assert!(!the_sender(&engine).credit_ready);
    let told = flow(&mut engine, credit(2, 5, false));
    assert!(matches!(replies(&told, 13)[..], [Reply::Started(identity)]
        if identity.delivery_id == 2));
    assert_eq!(credit_heard(&told), Some(true));
    assert!(the_sender(&engine).queued.is_empty() && the_sender(&engine).credit_ready);
}
