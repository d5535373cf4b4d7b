use switchyard::domain::codec::{
    decode, encode, split, CodecError, ACTIVE_VALUE_FORMAT, VALUE_FORMAT_V1, VALUE_FORMAT_V2,
};
use switchyard::domain::message::LockToken;
use switchyard::domain::queue::{
    QueueConfig, QueueConfigError, QueueCounters, MAX_DUPLICATE_DETECTION_HISTORY_MILLIS,
    MAX_LOCK_DURATION_MILLIS, MIN_DUPLICATE_DETECTION_HISTORY_MILLIS,
};
use switchyard::domain::session::{SessionLock, SessionRecord};
use switchyard::domain::time::Timestamp;
use switchyard::domain::topic::{SubscriptionConfig, SubscriptionConfigError, TopicConfig};

#[test]
fn round_trips_through_a_versioned_envelope() -> Result<(), CodecError> {
    let envelope = encode(&(7_u64, String::from("orders")))?;
    assert_eq!(envelope.first(), Some(&ACTIVE_VALUE_FORMAT));
    assert_eq!(
        decode::<(u64, String)>(&envelope)?,
        (7, String::from("orders"))
    );
    Ok(())
}

#[test]
fn encoding_is_byte_identical_for_equal_values() -> Result<(), CodecError> {
    assert_eq!(encode(&(1_u64, String::from("a")))?, encode(&(1_u64, String::from("a")))?);
    Ok(())
}

#[test]
fn a_record_that_never_changed_shape_reads_under_either_version() -> Result<(), CodecError> {
    let payload = postcard::to_stdvec(&(7_u64, String::from("orders"))).expect("encodes");
    for version in [VALUE_FORMAT_V1, VALUE_FORMAT_V2] {
        let mut envelope = vec![version];
        envelope.extend_from_slice(&payload);
        assert_eq!(
            decode::<(u64, String)>(&envelope)?,
            (7, String::from("orders"))
        );
        assert_eq!(split(&envelope)?.0, version);
    }
    Ok(())
}

#[test]
fn rejects_an_unknown_format_version() {
    assert_eq!(
        decode::<u64>(&[99, 0]),
        Err(CodecError::UnsupportedVersion { version: 99 })
    );
    assert_eq!(
        split(&[99, 0]),
        Err(CodecError::UnsupportedVersion { version: 99 })
    );
    assert_eq!(decode::<u64>(&[]), Err(CodecError::EmptyEnvelope));
}

#[test]
fn deadlines_saturate_instead_of_wrapping() {
    let deadline = Timestamp::from_millis(u64::MAX - 1).saturating_add_millis(1_000);
    assert_eq!(deadline, Timestamp::from_millis(u64::MAX));
    assert!(deadline > Timestamp::from_millis(u64::MAX - 1));
}

#[test]
fn a_lock_is_held_up_to_but_not_past_its_deadline() {
    let record = SessionRecord {
        lock: Some(SessionLock {
            token: LockToken::new(1),
            locked_until: Timestamp::from_millis(100),
        }),
        state: Vec::new(),
    };
    assert!(record.live_lock_at(Timestamp::from_millis(99)).is_some());
    // Settlement and expiry agree on the boundary: at the deadline the lock
    // is gone, matching how a message lock is judged.
    assert!(record.live_lock_at(Timestamp::from_millis(100)).is_none());
}

#[test]
fn a_session_that_was_never_locked_holds_nothing() {
    let record = SessionRecord::default();
    assert_eq!(record.live_lock_at(Timestamp::unix_epoch()), None);
    assert_eq!(record.state, Vec::<u8>::new());
}

#[test]
fn default_topic_and_subscription_configs_are_valid() {
    assert_eq!(
        TopicConfig::default().validate(),
        Ok(TopicConfig::default())
    );
    assert_eq!(
        SubscriptionConfig::default().validate(),
        Ok(SubscriptionConfig::default())
    );
}

#[test]
fn subscription_validation_matches_queue_receive_bounds() {
    assert_eq!(
        SubscriptionConfig {
            lock_duration_millis: MAX_LOCK_DURATION_MILLIS + 1,
            ..SubscriptionConfig::default()
        }
        .validate(),
        Err(SubscriptionConfigError::LockDurationTooLong {
            maximum_millis: MAX_LOCK_DURATION_MILLIS,
        })
    );
    assert_eq!(
        SubscriptionConfig {
            max_delivery_count: 0,
            ..SubscriptionConfig::default()
        }
        .validate(),
        Err(SubscriptionConfigError::MaxDeliveryCountTooSmall)
    );
}

#[test]
fn the_default_configuration_is_valid() {
    assert_eq!(
        QueueConfig::default().validate(),
        Ok(QueueConfig::default())
    );
}

#[test]
fn rejects_a_lock_that_outlives_the_service_bus_limit() {
    let config = QueueConfig {
        lock_duration_millis: MAX_LOCK_DURATION_MILLIS + 1,
        ..QueueConfig::default()
    };
    assert_eq!(
        config.validate(),
        Err(QueueConfigError::LockDurationTooLong {
            maximum_millis: MAX_LOCK_DURATION_MILLIS
        })
    );
}

#[test]
fn rejects_a_queue_that_can_never_deliver() {
    let config = QueueConfig {
        max_delivery_count: 0,
        ..QueueConfig::default()
    };
    assert_eq!(
        config.validate(),
        Err(QueueConfigError::MaxDeliveryCountTooSmall)
    );
}

#[test]
fn counters_start_at_one() {
    let counters = QueueCounters::default();
    assert_eq!(counters.next_sequence, 1);
    assert_eq!(counters.next_lock_token, 1);
}

#[test]
fn duplicate_detection_history_enforces_service_bus_bounds() {
    let too_short = QueueConfig {
        duplicate_detection_history_millis: MIN_DUPLICATE_DETECTION_HISTORY_MILLIS - 1,
        ..QueueConfig::default()
    };
    assert_eq!(
        too_short.validate(),
        Err(QueueConfigError::DuplicateDetectionHistoryTooShort {
            minimum_millis: MIN_DUPLICATE_DETECTION_HISTORY_MILLIS,
        })
    );

    let too_long = QueueConfig {
        duplicate_detection_history_millis: MAX_DUPLICATE_DETECTION_HISTORY_MILLIS + 1,
        ..QueueConfig::default()
    };
    assert_eq!(
        too_long.validate(),
        Err(QueueConfigError::DuplicateDetectionHistoryTooLong {
            maximum_millis: MAX_DUPLICATE_DETECTION_HISTORY_MILLIS,
        })
    );

    for history in [
        MIN_DUPLICATE_DETECTION_HISTORY_MILLIS,
        MAX_DUPLICATE_DETECTION_HISTORY_MILLIS,
    ] {
        assert!(
            QueueConfig {
                duplicate_detection_history_millis: history,
                ..QueueConfig::default()
            }
            .validate()
            .is_ok()
        );
    }
}
