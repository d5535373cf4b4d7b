use switchyard::domain::codec::{encode, CodecError, VALUE_FORMAT_V1};
use switchyard::domain::identifier::SessionId;
use switchyard::domain::message::{
    DeliveryGuarantee, MessageEnvelope, MessageRecord, MessageState, ReceiveMode, SequenceNumber,
};
use switchyard::domain::rule::FilterProperties;
use switchyard::domain::time::Timestamp;

fn record(expires_at: Option<Timestamp>) -> MessageRecord {
    MessageRecord {
        sequence: SequenceNumber::new(1),
        message_id: String::from("m-1"),
        body: Vec::new(),
        enqueued_at: Timestamp::from_millis(0),
        scheduled_enqueue_at: None,
        expires_at,
        delivery_count: 0,
        state: MessageState::Ready,
        session_id: None,
        dead_letter: None,
        envelope: None,
    }
}

#[test]
fn a_message_without_a_lifetime_never_expires() {
    assert!(!record(None).is_expired_at(Timestamp::from_millis(u64::MAX)));
}

#[test]
fn expiry_is_inclusive_of_the_deadline() {
    let record = record(Some(Timestamp::from_millis(100)));
    assert!(!record.is_expired_at(Timestamp::from_millis(99)));
    assert!(record.is_expired_at(Timestamp::from_millis(100)));
}

#[test]
fn a_message_round_trips_through_version_one() -> Result<(), CodecError> {
    let original = MessageRecord {
        session_id: Some(SessionId::new(String::from("cart-1")).expect("a valid session id")),
        ..record(None)
    };
    let envelope = encode(&original)?;
    assert_eq!(envelope.first(), Some(&VALUE_FORMAT_V1));
    assert_eq!(MessageRecord::decode(&envelope)?, original);
    Ok(())
}

#[test]
fn a_protocol_envelope_round_trips_through_version_one() -> Result<(), CodecError> {
    let original = MessageRecord {
        envelope: Some(MessageEnvelope::new(vec![
            0, 0x53, 0x77, 0xa1, 3, b'a', b'm', b'q',
        ])),
        ..record(None)
    };
    let encoded = encode(&original)?;

    assert_eq!(encoded.first(), Some(&VALUE_FORMAT_V1));
    assert_eq!(MessageRecord::decode(&encoded)?, original);
    Ok(())
}

#[test]
fn a_newer_message_format_is_rejected() {
    assert_eq!(
        MessageRecord::decode(&[VALUE_FORMAT_V1 + 1, 0]),
        Err(CodecError::UnsupportedVersion {
            version: VALUE_FORMAT_V1 + 1,
        })
    );
}

#[test]
fn receive_modes_map_to_their_delivery_guarantees() {
    assert_eq!(
        ReceiveMode::PeekLock.delivery_guarantee(),
        DeliveryGuarantee::AtLeastOnce
    );
    assert_eq!(
        ReceiveMode::ReceiveAndDelete.delivery_guarantee(),
        DeliveryGuarantee::AtMostOnce
    );
}

#[test]
fn the_bytes_of_an_envelope_are_stored_alone() -> Result<(), CodecError> {
    let properties = FilterProperties {
        subject: Some(String::from("order")),
        ..FilterProperties::default()
    };
    let sent = MessageRecord {
        envelope: Some(MessageEnvelope::with_filter_properties(vec![7, 8, 9], properties)),
        ..record(None)
    };
    let stored = encode(&sent)?;
    assert_eq!(stored, vec![1, 1, 3, b'm', b'-', b'1', 0, 0, 0, 0, 0, 0, 0, 0, 1, 3, 7, 8, 9]);
    assert_eq!(
        MessageRecord::decode(&stored)?.envelope,
        Some(MessageEnvelope::new(vec![7, 8, 9]))
    );
    Ok(())
}
