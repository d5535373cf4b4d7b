use switchyard::domain::rule::{
    CorrelationFilter, CorrelationValue, FilterProperties, PropertyMap, RuleConfigError, RuleFilter,
    MAX_CORRELATION_VALUE_BYTES,
};

fn properties(entries: [(String, CorrelationValue); 2]) -> PropertyMap {
    let mut map = PropertyMap::new();
    for (name, value) in entries {
        map.insert(name, value);
    }
    map
}

fn scalar(tag: u8, value: &str) -> CorrelationValue {
    let mut bytes = vec![tag];
    bytes.extend_from_slice(value.as_bytes());
    CorrelationValue::new(bytes).expect("a small canonical value")
}

#[test]
fn correlation_matching_ands_fields_and_preserves_types_and_case() {
    let filter = CorrelationFilter {
        correlation_id: Some(String::from("Order-A")),
        message_id: Some(String::from("message-7")),
        to: Some(String::from("orders")),
        reply_to: Some(String::from("replies")),
        subject: Some(String::from("created")),
        session_id: Some(String::from("session-7")),
        reply_to_session_id: Some(String::from("reply-session-7")),
        content_type: Some(String::from("application/json")),
        application_properties: properties([
            (String::from("Region"), scalar(1, "west")),
            (String::from("attempt"), scalar(2, "7")),
        ]),
    };
    let matching = FilterProperties {
        correlation_id: Some(String::from("Order-A")),
        message_id: Some(String::from("message-7")),
        to: Some(String::from("orders")),
        reply_to: Some(String::from("replies")),
        subject: Some(String::from("created")),
        session_id: Some(String::from("session-7")),
        reply_to_session_id: Some(String::from("reply-session-7")),
        content_type: Some(String::from("application/json")),
        application_properties: properties([
            (String::from("region"), scalar(1, "west")),
            (String::from("attempt"), scalar(2, "7")),
        ]),
    };
    assert!(filter.matches(&matching));

    let mut wrong_case = matching.clone();
    wrong_case.correlation_id = Some(String::from("order-a"));
    assert!(!filter.matches(&wrong_case));

    let mut wrong_type = matching;
    wrong_type
        .application_properties
        .insert(String::from("attempt"), scalar(3, "7"));
    assert!(!filter.matches(&wrong_type));
}

#[test]
fn correlation_filters_must_be_nonempty_and_bounded() {
    assert_eq!(
        RuleFilter::Correlation(CorrelationFilter {
            session_id: Some(String::from("session-7")),
            ..CorrelationFilter::default()
        })
        .validate(),
        Err(RuleConfigError::SessionIdNotSupported)
    );
    assert_eq!(
        RuleFilter::Correlation(CorrelationFilter::default()).validate(),
        Err(RuleConfigError::EmptyCorrelationFilter)
    );
    assert_eq!(
        RuleFilter::Correlation(CorrelationFilter {
            application_properties: properties([
                (String::from("Priority"), scalar(1, "high")),
                (String::from("priority"), scalar(1, "low")),
            ]),
            ..CorrelationFilter::default()
        })
        .validate(),
        Err(RuleConfigError::DuplicateApplicationProperty)
    );
    assert_eq!(
        CorrelationValue::new(vec![0; MAX_CORRELATION_VALUE_BYTES + 1]),
        Err(RuleConfigError::CorrelationValueTooLarge {
            bytes: MAX_CORRELATION_VALUE_BYTES + 1,
            maximum: MAX_CORRELATION_VALUE_BYTES,
        })
    );
}

#[test]
fn actionless_rule_variants_have_expected_truth_tables() {
    let properties = FilterProperties::default();
    assert!(RuleFilter::True.matches(&properties));
    assert!(!RuleFilter::False.matches(&properties));
}
