use switchyard::amqp::composite;
use switchyard::amqp::composite::write_composite;
use switchyard::amqp::encoding::{decode_value, encode_value};
use switchyard::amqp::entries::OrderedMap;
use switchyard::amqp::fault::CodecFault;
use switchyard::amqp::fields::{described, take_described, take_list};
use switchyard::amqp::frame::{decode_frame, encode_frame, frame_size, Frame, ProtocolHeader};
use switchyard::amqp::message::{decode_message, encode_message};
use switchyard::amqp::shape::encoded_value_len;
use switchyard::amqp::types::{
    Accepted, AmqpError, AnnotationKey, ApplicationProperties, Attach, Begin, Body, DeliveryState,
    DeliveryTag, Disposition, Error, ErrorCondition, Header, Message, MessageId, Open, Outcome,
    Performative, Properties, ReceiverSettleMode, Rejected, Role, SaslMechanisms,
    SaslPerformative, SenderSettleMode, Source, Target, Transfer,
};
use switchyard::amqp::value::{AmqpValue, Descriptor, Symbol};

fn round_trip(performative: Performative) {
    let frame = Frame::Amqp {
        channel: 3,
        performative: Some(performative),
        payload: b"payload".to_vec(),
    };
    let encoded = encode_frame(&frame).expect("frame encodes");
    assert_eq!(decode_frame(&encoded).expect("frame decodes"), frame);
}

fn text(text: &str) -> String {
    String::from(text)
}

fn orders_attach() -> Attach {
    Attach {
        name: text("orders"),
        handle: 7,
        role: Role::Receiver,
        snd_settle_mode: SenderSettleMode::Unsettled,
        rcv_settle_mode: ReceiverSettleMode::Second,
        source: Some(Source::new(text("orders"))),
        target: Some(Target::new(text("client"))),
        unsettled: None,
        incomplete_unsettled: false,
        initial_delivery_count: None,
        max_message_size: Some(262_144),
        offered_capabilities: None,
        desired_capabilities: None,
        properties: None,
    }
}

fn every_performative_round_trips() {
    round_trip(Performative::Open(Open::new(text("container"))));
    round_trip(Performative::Begin(Begin::default()));
    round_trip(Performative::Attach(Box::new(orders_attach())));
    round_trip(Performative::Transfer(Transfer {
        handle: 7,
        delivery_id: Some(11),
        delivery_tag: Some(vec![9; 16]),
        message_format: Some(0),
        settled: Some(false),
        more: false,
        rcv_settle_mode: None,
        state: None,
        resume: false,
        aborted: false,
        batchable: false,
    }));
    round_trip(Performative::Disposition(Disposition {
        role: Role::Receiver,
        first: 11,
        last: None,
        settled: false,
        state: Some(DeliveryState::Accepted(Accepted)),
        batchable: false,
    }));
}

fn mechanisms_round_trip() {
    let frame = Frame::Sasl(SaslPerformative::Mechanisms(SaslMechanisms {
        mechanisms: vec![Symbol::new("ANONYMOUS"), Symbol::new("PLAIN")],
    }));
    let encoded = encode_frame(&frame).expect("frame encodes");
    assert_eq!(decode_frame(&encoded).expect("frame decodes"), frame);
}

fn status_properties() -> ApplicationProperties {
    let mut application_properties = ApplicationProperties::default();
    application_properties.insert(text("status-code"), AmqpValue::Int(202));
    application_properties.insert(
        text("status-description"),
        AmqpValue::String(text("Accepted")),
    );
    application_properties
}

#[test]
fn codec_transport_performatives_round_trip() {
    every_performative_round_trips();
}

#[test]
fn tests_transport_performatives_round_trip() {
    every_performative_round_trips();
}

#[test]
fn codec_sasl_performatives_round_trip() {
    mechanisms_round_trip();
}

#[test]
fn tests_sasl_performatives_round_trip() {
    mechanisms_round_trip();
}

#[test]
fn codec_message_sections_round_trip() {
    let message = Message {
        header: Some(Header { ttl: Some(5000), ..Header::default() }),
        properties: Some(Properties {
            message_id: Some(MessageId::String(text("message-1"))),
            group_id: Some(text("cart-1")),
            ..Properties::default()
        }),
        application_properties: Some(status_properties()),
        body: Body::Data(vec![b"one".to_vec(), b"two".to_vec()]),
        ..Message::default()
    };

    let encoded = encode_message(&message).expect("message encodes");
    assert_eq!(decode_message(&encoded).expect("message decodes"), message);
}

#[test]
fn message_message_sections_round_trip() {
    let mut delivery_annotations = OrderedMap::new();
    delivery_annotations.insert(
        AnnotationKey::Symbol(Symbol::new("x-opt-delivery")),
        AmqpValue::String(text("delivery")),
    );
    let mut message_annotations = OrderedMap::new();
    message_annotations.insert(AnnotationKey::Ulong(7), AmqpValue::String(text("message")));
    let mut footer = OrderedMap::new();
    footer.insert(
        AnnotationKey::Symbol(Symbol::new("checksum")),
        AmqpValue::Binary(vec![1, 2, 3]),
    );
    let message = Message {
        header: Some(Header { ttl: Some(5000), ..Header::default() }),
        delivery_annotations: Some(delivery_annotations),
        message_annotations: Some(message_annotations),
        properties: Some(Properties {
            message_id: Some(MessageId::from(text("message-1"))),
            absolute_expiry_time: Some(9_876_543),
            creation_time: Some(-123),
            group_id: Some(text("cart-1")),
            ..Properties::default()
        }),
        application_properties: Some(status_properties()),
        body: Body::Data(vec![b"one".to_vec(), b"two".to_vec()]),
        footer: Some(footer),
    };

    let encoded = encode_message(&message).expect("message encodes");
    assert_eq!(decode_message(&encoded).expect("message decodes"), message);
}

#[test]
fn sequence_body_sections_round_trip_without_collapsing() {
    let message = Message::builder()
        .body(Body::Sequence(vec![
            vec![AmqpValue::String(text("first")), AmqpValue::Int(1)],
            vec![AmqpValue::String(text("second")), AmqpValue::Int(2)],
        ]))
        .build();

    let encoded = encode_message(&message).expect("message encodes");
    assert_eq!(decode_message(&encoded).expect("message decodes"), message);
}

#[test]
fn property_times_are_encoded_as_amqp_timestamps() {
    let message = Message::builder()
        .properties(Properties {
            absolute_expiry_time: Some(10),
            creation_time: Some(-20),
            ..Properties::default()
        })
        .build();
    let encoded = encode_message(&message).expect("message encodes");
    let encoded_len = encoded_value_len(&encoded).expect("properties section has a length");
    let value = decode_value(&encoded[..encoded_len]).expect("properties section decodes");
    let (descriptor, value) = take_described(&value).expect("properties are described");
    assert_eq!(descriptor, composite::PROPERTIES);
    let fields = take_list(value).expect("properties use list encoding");
    assert_eq!(fields[8], AmqpValue::Timestamp(10));
    assert_eq!(fields[9], AmqpValue::Timestamp(-20));
}

#[test]
fn message_decoder_rejects_duplicate_mixed_unknown_and_out_of_order_sections() {
    let header = encode_value(&write_composite(&Header::default())).unwrap();
    let duplicate = [header.clone(), header].concat();

    let mixed = [
        encode_value(&described(composite::DATA, AmqpValue::Binary(vec![1]))).unwrap(),
        encode_value(&described(
            composite::AMQP_SEQUENCE,
            AmqpValue::List(vec![AmqpValue::Int(2)]),
        ))
        .unwrap(),
    ]
    .concat();

    let unknown = encode_value(&described(0x79, AmqpValue::Null)).unwrap();

    let out_of_order = [
        encode_value(&described(
            composite::APPLICATION_PROPERTIES,
            AmqpValue::Mapping(Vec::new()),
        ))
        .unwrap(),
        encode_value(&write_composite(&Properties::default())).unwrap(),
    ]
    .concat();

    assert_eq!(
        decode_message(&duplicate),
        Err(CodecFault::DuplicateSection(composite::HEADER))
    );
    assert_eq!(decode_message(&mixed), Err(CodecFault::MixedBody));
    assert_eq!(decode_message(&unknown), Err(CodecFault::UnknownSection(0x79)));
    assert_eq!(decode_message(&out_of_order), Err(CodecFault::SectionOrder));
    for invalid in [duplicate, mixed, unknown, out_of_order] {
        assert!(decode_message(&invalid).is_err());
    }
}

#[test]
fn message_decoder_rejects_invalid_annotation_keys_and_long_timestamps() {
    let invalid_annotations = encode_value(&described(
        composite::MESSAGE_ANNOTATIONS,
        AmqpValue::Mapping(vec![(AmqpValue::String(text("not-a-symbol")), AmqpValue::Int(1))]),
    ))
    .expect("invalid annotations encode as a generic AMQP value");
    assert!(decode_message(&invalid_annotations).is_err());

    let mut property_fields = Vec::new();
    for _ in 0..10 {
        property_fields.push(AmqpValue::Null);
    }
    property_fields[8] = AmqpValue::Long(10);
    let invalid_timestamp =
        encode_value(&described(composite::PROPERTIES, AmqpValue::List(property_fields)))
            .expect("invalid properties encode as a generic AMQP value");
    assert!(decode_message(&invalid_timestamp).is_err());
}

#[test]
fn empty_sectioned_bodies_are_not_encodable() {
    let empty_data = Message::builder().body(Body::Data(Vec::new())).build();
    let empty_sequence = Message::builder().body(Body::Sequence(Vec::new())).build();
    assert!(encode_message(&empty_data).is_err());
    assert!(encode_message(&empty_sequence).is_err());
    assert_eq!(encode_message(&empty_data), Err(CodecFault::EmptyBody));
}

#[test]
fn a_link_role_selects_the_local_endpoint() {
    assert_eq!(Role::Sender.opposite(), Role::Receiver);
    assert_eq!(Role::Receiver.opposite(), Role::Sender);
}

#[test]
fn protocol_errors_remain_link_scoped_values() {
    let error = Error::new(AmqpError::InvalidField.into(), text("bad link"), None);
    assert_eq!(error.condition, AmqpError::InvalidField.into());
    assert_eq!(error.describe(), "amqp:invalid-field: bad link");
}

#[test]
fn delivery_tags_are_binary_and_exact() {
    let tag: DeliveryTag = vec![0, 1, 2, 3];
    assert_eq!(tag.as_slice(), &[0, 1, 2, 3]);
}

#[test]
fn frames_have_the_octets_of_the_protocol() {
    let heartbeat = Frame::Amqp { channel: 258, performative: None, payload: Vec::new() };
    let encoded = encode_frame(&heartbeat).expect("frame encodes");
    assert_eq!(encoded, vec![0, 0, 0, 8, 2, 0, 1, 2]);
    assert_eq!(decode_frame(&encoded), Ok(heartbeat));
    assert_eq!(frame_size(&[0, 0, 0, 8]), Ok(8));
    assert_eq!(frame_size(&[0, 0, 0, 7]), Err(CodecFault::FrameSize(7)));
    assert_eq!(frame_size(&[0, 0x40, 0, 1]), Err(CodecFault::FrameSize(4_194_305)));
}

#[test]
fn faulty_frames_are_told_apart() {
    assert_eq!(decode_frame(&[0, 0, 0, 8, 2, 0]), Err(CodecFault::FrameShort));
    assert_eq!(
        decode_frame(&[0, 0, 0, 9, 2, 0, 0, 0]),
        Err(CodecFault::FrameSizeMismatch)
    );
    assert_eq!(decode_frame(&[0, 0, 0, 8, 1, 0, 0, 0]), Err(CodecFault::DataOffset));
    assert_eq!(decode_frame(&[0, 0, 0, 8, 3, 0, 0, 0]), Err(CodecFault::DataOffset));
    assert_eq!(decode_frame(&[0, 0, 0, 8, 2, 9, 0, 0]), Err(CodecFault::FrameType(9)));
    assert_eq!(decode_frame(&[0, 0, 0, 8, 2, 1, 0, 0]), Err(CodecFault::SaslFrame));
    assert_eq!(
        decode_frame(&[0, 0, 0, 9, 2, 0, 0, 0, 0x3f]),
        Err(CodecFault::FormatCode(0x3f))
    );
    assert_eq!(
        decode_frame(&[0, 0, 0, 9, 2, 0, 0, 0, 0x40]),
        Err(CodecFault::NotDescribed)
    );
    let mut sasl = encode_frame(&Frame::Sasl(SaslPerformative::Mechanisms(SaslMechanisms {
        mechanisms: vec![Symbol::new("PLAIN")],
    })))
    .expect("frame encodes");
    sasl.push(0x40);
    let size = sasl.len() as u8;
    sasl[3] = size;
    assert_eq!(decode_frame(&sasl), Err(CodecFault::SaslTrailing));
}

#[test]
fn protocol_headers_name_their_protocol() {
    assert_eq!(ProtocolHeader::amqp().bytes(), *b"AMQP\x00\x01\x00\x00");
    assert_eq!(ProtocolHeader::sasl().bytes(), *b"AMQP\x03\x01\x00\x00");
    assert_eq!(
        ProtocolHeader::parse(b"AMQP\x03\x01\x00\x00"),
        Ok(ProtocolHeader::sasl())
    );
    assert_eq!(
        ProtocolHeader::parse(b"HTTP\x00\x01\x00\x00"),
        Err(CodecFault::ProtocolHeader)
    );
}

#[test]
fn values_have_the_octets_of_the_protocol() {
    assert_eq!(encode_value(&AmqpValue::Null), Ok(vec![0x40]));
    assert_eq!(encode_value(&AmqpValue::Bool(true)), Ok(vec![0x41]));
    assert_eq!(encode_value(&AmqpValue::Ubyte(200)), Ok(vec![0x50, 200]));
    assert_eq!(encode_value(&AmqpValue::Ushort(258)), Ok(vec![0x60, 1, 2]));
    assert_eq!(encode_value(&AmqpValue::Uint(0)), Ok(vec![0x43]));
    assert_eq!(encode_value(&AmqpValue::Uint(7)), Ok(vec![0x52, 7]));
    assert_eq!(
        encode_value(&AmqpValue::String(text("hi"))),
        Ok(vec![0xa1, 2, b'h', b'i'])
    );
    assert_eq!(
        encode_value(&AmqpValue::Symbol(Symbol::new("hi"))),
        Ok(vec![0xa3, 2, b'h', b'i'])
    );
    assert_eq!(
        encode_value(&AmqpValue::Timestamp(-1)),
        Ok(vec![0x83, 255, 255, 255, 255, 255, 255, 255, 255])
    );
}

#[test]
fn every_kind_of_value_round_trips() {
    let values = vec![
        AmqpValue::Byte(-3),
        AmqpValue::Short(-300),
        AmqpValue::Int(-70_000),
        AmqpValue::Long(i64::MIN),
        AmqpValue::Ulong(u64::MAX),
        AmqpValue::Float(1.5_f32.to_bits()),
        AmqpValue::Double((-2.25_f64).to_bits()),
        AmqpValue::Char('\u{1F600}'),
        AmqpValue::Uuid([7; 16]),
        AmqpValue::Binary(vec![0, 255]),
        AmqpValue::List(vec![AmqpValue::Null, AmqpValue::Bool(false)]),
        AmqpValue::Mapping(vec![
            (AmqpValue::Symbol(Symbol::new("b")), AmqpValue::Int(1)),
            (AmqpValue::Symbol(Symbol::new("a")), AmqpValue::Int(2)),
        ]),
        described(0x99, AmqpValue::Uint(9)),
    ];
    for value in values {
        let encoded = encode_value(&value).expect("value encodes");
        assert_eq!(encoded_value_len(&encoded), Ok(encoded.len()));
        assert_eq!(decode_value(&encoded), Ok(value));
    }
}

#[test]
fn error_conditions_are_told_by_their_symbols() {
    assert_eq!(AmqpError::NotFound.as_str(), "amqp:not-found");
    assert_eq!(AmqpError::from_symbol("amqp:not-found"), Some(AmqpError::NotFound));
    assert_eq!(AmqpError::from_symbol("com.microsoft:timeout"), None);
    let custom = ErrorCondition::Custom(Symbol::new("com.microsoft:timeout"));
    assert_eq!(custom.as_symbol(), Symbol::new("com.microsoft:timeout"));
}

#[test]
fn outcomes_are_the_terminal_delivery_states() {
    let rejected = DeliveryState::Rejected(Rejected { error: None });
    assert!(rejected.is_terminal());
    assert_eq!(
        Outcome::try_from_state(rejected),
        Ok(Outcome::Rejected(Rejected { error: None }))
    );
    assert_eq!(
        Outcome::Accepted(Accepted).state(),
        DeliveryState::Accepted(Accepted)
    );
}

#[test]
fn an_attach_is_answered_from_the_other_end() {
    let response = orders_attach().response(None, None);
    assert_eq!(response.role, Role::Sender);
    assert_eq!(response.handle, 7);
    assert_eq!(response.initial_delivery_count, Some(0));
}

fn named(name: &str, inner: AmqpValue) -> AmqpValue {
    AmqpValue::Described(Descriptor::Name(Symbol::new(name)), Box::new(inner))
}

fn reads_back(value: AmqpValue) {
    let encoded = encode_value(&value).expect("value encodes");
    assert_eq!(encoded_value_len(&encoded), Ok(encoded.len()));
    assert_eq!(decode_value(&encoded), Ok(value));
}

#[test]
fn reals_are_read_by_their_bits() {
    reads_back(AmqpValue::Float(0x7fc0_0001));
    reads_back(AmqpValue::Float((-0.0_f32).to_bits()));
    reads_back(AmqpValue::Double(f64::NAN.to_bits()));
    reads_back(AmqpValue::Decimal32([1, 2, 3, 4]));
    reads_back(AmqpValue::Decimal64([8; 8]));
    reads_back(AmqpValue::Decimal128([9; 16]));
}

#[test]
fn arrays_of_one_kind_round_trip() {
    reads_back(AmqpValue::Array(vec![]));
    reads_back(AmqpValue::Array(vec![AmqpValue::Bool(true), AmqpValue::Bool(false)]));
    reads_back(AmqpValue::Array(vec![AmqpValue::Ubyte(0), AmqpValue::Ubyte(255)]));
    reads_back(AmqpValue::Array(vec![AmqpValue::Ushort(1), AmqpValue::Ushort(2)]));
    reads_back(AmqpValue::Array(vec![AmqpValue::Uint(0), AmqpValue::Uint(u32::MAX)]));
    reads_back(AmqpValue::Array(vec![AmqpValue::Ulong(0), AmqpValue::Ulong(u64::MAX)]));
    reads_back(AmqpValue::Array(vec![AmqpValue::Byte(-1), AmqpValue::Byte(1)]));
    reads_back(AmqpValue::Array(vec![AmqpValue::Short(-1), AmqpValue::Short(1)]));
    reads_back(AmqpValue::Array(vec![AmqpValue::Int(-1), AmqpValue::Int(i32::MAX)]));
    reads_back(AmqpValue::Array(vec![AmqpValue::Long(-1), AmqpValue::Long(i64::MAX)]));
    reads_back(AmqpValue::Array(vec![AmqpValue::Float(1), AmqpValue::Float(2)]));
    reads_back(AmqpValue::Array(vec![AmqpValue::Double(1), AmqpValue::Double(2)]));
    reads_back(AmqpValue::Array(vec![AmqpValue::Decimal32([1; 4]), AmqpValue::Decimal32([2; 4])]));
    reads_back(AmqpValue::Array(vec![AmqpValue::Decimal64([1; 8]), AmqpValue::Decimal64([2; 8])]));
    reads_back(AmqpValue::Array(vec![
        AmqpValue::Decimal128([1; 16]),
        AmqpValue::Decimal128([2; 16]),
    ]));
    reads_back(AmqpValue::Array(vec![AmqpValue::Char('a'), AmqpValue::Char('\u{1F600}')]));
    reads_back(AmqpValue::Array(vec![AmqpValue::Timestamp(-1), AmqpValue::Timestamp(1)]));
    reads_back(AmqpValue::Array(vec![AmqpValue::Uuid([1; 16]), AmqpValue::Uuid([2; 16])]));
    reads_back(AmqpValue::Array(vec![AmqpValue::Binary(vec![]), AmqpValue::Binary(vec![1, 2])]));
    reads_back(AmqpValue::Array(vec![
        AmqpValue::String(text("")),
        AmqpValue::String(text("two")),
    ]));
    reads_back(AmqpValue::Array(vec![
        AmqpValue::Symbol(Symbol::new("one")),
        AmqpValue::Symbol(Symbol::new("two")),
    ]));
    let many: Vec<AmqpValue> = (0..300).map(AmqpValue::Int).collect();
    reads_back(AmqpValue::List(vec![AmqpValue::Array(many), AmqpValue::Null]));
}

#[test]
fn arrays_of_a_single_compound_value_round_trip() {
    let list = |items: Vec<AmqpValue>| AmqpValue::List(items);
    let array = |items: Vec<AmqpValue>| AmqpValue::Array(items);
    let pair = || AmqpValue::Mapping(vec![(AmqpValue::Uint(1), AmqpValue::String(text("é")))]);
    reads_back(array(vec![AmqpValue::Null]));
    reads_back(array(vec![list(vec![])]));
    reads_back(array(vec![list(vec![AmqpValue::Int(1), AmqpValue::Null, pair()])]));
    reads_back(array(vec![list(vec![described(7, AmqpValue::Int(1)), AmqpValue::Bool(true)])]));
    reads_back(array(vec![array(vec![])]));
    reads_back(array(vec![array(vec![AmqpValue::Int(1), AmqpValue::Int(2)])]));
    reads_back(array(vec![array(vec![list(vec![array(vec![AmqpValue::Null]), pair()])])]));
    reads_back(array(vec![AmqpValue::Mapping(vec![])]));
    reads_back(array(vec![AmqpValue::Mapping(vec![]), AmqpValue::Mapping(vec![])]));
    let long: Vec<AmqpValue> = (0..300).map(AmqpValue::Int).collect();
    reads_back(list(vec![
        array(vec![list(long.clone())]),
        array(vec![array(long)]),
        array(vec![AmqpValue::Null]),
        array(vec![list(vec![])]),
        array(vec![AmqpValue::Mapping(vec![])]),
        pair(),
        AmqpValue::Int(7),
    ]));
}

#[test]
fn arrays_of_nulls_round_trip_at_the_end() {
    let nulls = || AmqpValue::Array(vec![AmqpValue::Null; 3]);
    let lists = || AmqpValue::Array(vec![AmqpValue::List(vec![]); 300]);
    for last in [nulls(), lists()] {
        reads_back(last.clone());
        reads_back(described(7, last.clone()));
        reads_back(AmqpValue::List(vec![AmqpValue::Int(1), last.clone()]));
        reads_back(AmqpValue::Array(vec![AmqpValue::List(vec![last.clone()])]));
        reads_back(AmqpValue::Array(vec![last.clone()]));
        reads_back(AmqpValue::Mapping(vec![
            (AmqpValue::Int(1), AmqpValue::Array(vec![AmqpValue::Int(2)])),
            (AmqpValue::Int(2), named("n", last.clone())),
        ]));
        let followed = AmqpValue::List(vec![last, AmqpValue::Int(1)]);
        let encoded = encode_value(&followed).expect("value encodes");
        assert_ne!(decode_value(&encoded), Ok(followed));
    }
    let body = Body::Single(nulls());
    let message = Message { body, ..Message::default() };
    let encoded = encode_message(&message).expect("message encodes");
    assert_eq!(decode_message(&encoded), Ok(message));
}

#[test]
fn other_arrays_of_compound_values_do_not_read_back() {
    let entry = vec![(AmqpValue::Uint(1), AmqpValue::Uint(2))];
    let others = vec![
        AmqpValue::Array(vec![AmqpValue::Mapping(entry)]),
        AmqpValue::Array(vec![described(5, AmqpValue::Int(7))]),
        AmqpValue::Array(vec![
            AmqpValue::List(vec![AmqpValue::Int(1)]),
            AmqpValue::List(vec![AmqpValue::Int(2)]),
        ]),
        AmqpValue::Array(vec![
            AmqpValue::Array(vec![AmqpValue::Int(1)]),
            AmqpValue::Array(vec![AmqpValue::Int(2)]),
        ]),
    ];
    for value in others {
        let encoded = encode_value(&value).expect("value encodes");
        assert_ne!(decode_value(&encoded), Ok(value));
    }
}

#[test]
fn values_described_by_a_name_round_trip() {
    reads_back(named("com.microsoft:session-filter", AmqpValue::String(text("cart-1"))));
    reads_back(named("a", named("b", AmqpValue::Long(0))));
    reads_back(named(&"n".repeat(300), AmqpValue::List(vec![described(7, AmqpValue::Null)])));
}

#[test]
fn maps_with_other_keys_round_trip() {
    reads_back(AmqpValue::Mapping(vec![
        (AmqpValue::Timestamp(5), AmqpValue::Int(1)),
        (AmqpValue::Double(7), AmqpValue::Symbol(Symbol::new("x"))),
        (AmqpValue::List(vec![AmqpValue::Null]), AmqpValue::List(vec![AmqpValue::Uint(0)])),
        (
            AmqpValue::Array(vec![AmqpValue::Int(1)]),
            AmqpValue::Mapping(vec![(AmqpValue::Null, AmqpValue::List(vec![AmqpValue::Null]))]),
        ),
        (named("k", AmqpValue::Ubyte(1)), AmqpValue::Binary(vec![1])),
    ]));
}

#[test]
fn a_number_behind_a_time_is_written_as_a_time() {
    let value = AmqpValue::Mapping(vec![(AmqpValue::Timestamp(5), AmqpValue::Long(6))]);
    let encoded = encode_value(&value).expect("value encodes");
    assert_eq!(
        decode_value(&encoded),
        Ok(AmqpValue::Mapping(vec![(AmqpValue::Timestamp(5), AmqpValue::Timestamp(6))]))
    );
}

#[test]
fn described_elements_of_an_array_are_written() {
    let value = AmqpValue::Array(vec![described(5, AmqpValue::Int(7))]);
    assert_eq!(
        encode_value(&value),
        Ok(vec![
            0xe0, 16, 1, 0, 0x80, 0, 0, 0, 0, 0, 0, 0, 5, 0x71, 0, 0, 0, 7
        ])
    );
}

#[test]
fn what_breaks_a_serializer_off_is_refused() {
    let faulty = vec![
        AmqpValue::Array(vec![named("a", AmqpValue::Long(0))]),
        AmqpValue::Array(vec![named("a", AmqpValue::Binary(vec![]))]),
        AmqpValue::Mapping(vec![(
            AmqpValue::Array(vec![]),
            AmqpValue::List(vec![named("a", AmqpValue::Long(0))]),
        )]),
        AmqpValue::Mapping(vec![(
            named("b", AmqpValue::Array(vec![])),
            AmqpValue::List(vec![named("a", AmqpValue::Long(0))]),
        )]),
        AmqpValue::Mapping(vec![(AmqpValue::Timestamp(1), AmqpValue::String(text("x")))]),
        AmqpValue::Mapping(vec![(AmqpValue::Timestamp(1), AmqpValue::Binary(vec![1]))]),
        AmqpValue::Mapping(vec![
            (AmqpValue::Int(1), AmqpValue::Null),
            (AmqpValue::Int(1), AmqpValue::Null),
        ]),
    ];
    for value in faulty {
        assert_eq!(encode_value(&value), Err(CodecFault::NotEncodable));
    }
}

#[test]
fn a_session_filter_survives_an_attach() {
    let mut filter: OrderedMap<Symbol, AmqpValue> = OrderedMap::new();
    filter.insert(
        Symbol::new("com.microsoft:session-filter"),
        named("com.microsoft:session-filter", AmqpValue::String(text("cart-1"))),
    );
    let source = Source::builder().address(text("orders")).filter(filter).build();
    let attach = Attach { source: Some(source), ..orders_attach() };
    round_trip(Performative::Attach(Box::new(attach)));
}

#[test]
fn a_message_of_reals_and_arrays_round_trips() {
    let body = AmqpValue::List(vec![
        AmqpValue::Double((0.1_f64).to_bits()),
        AmqpValue::Decimal64([3; 8]),
        AmqpValue::Array(vec![AmqpValue::Int(1), AmqpValue::Int(2)]),
        named("unit", AmqpValue::Float(1)),
    ]);
    let message = Message { body: Body::Single(body), ..Message::default() };
    let encoded = encode_message(&message).expect("message encodes");
    assert_eq!(decode_message(&encoded), Ok(message));
}

#[test]
fn values_cut_short_are_none() {
    let whole = encode_value(&described(7, AmqpValue::List(vec![AmqpValue::Int(1000)])))
        .expect("value encodes");
    for end in 0..whole.len() {
        assert!(encoded_value_len(&whole[..end]).is_err());
    }
    let mut longer = whole.clone();
    longer.push(0x40);
    assert_eq!(encoded_value_len(&longer), Ok(whole.len()));
}

#[test]
fn frames_of_another_length_are_refused() {
    let frame = Frame::Amqp {
        channel: 0,
        performative: Some(Performative::Open(Open::new(text("c")))),
        payload: Vec::new(),
    };
    let mut octets = encode_frame(&frame).expect("frame encodes");
    assert_eq!(octets[..4], (octets.len() as u32).to_be_bytes());
    assert_eq!(decode_frame(&octets[..octets.len() - 1]), Err(CodecFault::FrameSizeMismatch));
    octets.push(0);
    assert_eq!(decode_frame(&octets), Err(CodecFault::FrameSizeMismatch));
}
