use switchyard::domain::identifier::{
    EntityPath, IdentifierError, NamespaceName, SessionId, SubscriptionName, MAX_ENTITY_PATH_BYTES,
    MAX_INTERNAL_ENTITY_PATH_BYTES, MAX_SESSION_ID_BYTES, MAX_SUBSCRIPTION_NAME_CHARACTERS,
};

#[test]
fn namespace_rejects_empty_names() {
    assert_eq!(
        NamespaceName::new(String::from("")),
        Err(IdentifierError::Empty { kind: "namespace" })
    );
}

#[test]
fn entity_path_accepts_subscription_paths() {
    let path = EntityPath::new(String::from("orders/subscriptions/accounting"));
    assert_eq!(
        path.as_ref().map(EntityPath::as_str),
        Ok("orders/subscriptions/accounting")
    );
}

#[test]
fn broker_owned_collection_and_management_shapes_are_recognized() {
    assert!(
        EntityPath::new(String::from("orders/Subscriptions"))
            .expect("syntactically valid path")
            .is_subscription()
    );
    assert!(
        EntityPath::new(String::from("orders/$Management"))
            .expect("syntactically valid path")
            .is_management()
    );
    assert!(
        !EntityPath::new(String::from("orders/subscriptions-archive"))
            .expect("ordinary path")
            .is_subscription()
    );
}

#[test]
fn identifiers_reject_the_key_separator_byte() {
    assert_eq!(
        NamespaceName::new(String::from("tenant\0forged")),
        Err(IdentifierError::ControlCharacter { kind: "namespace" })
    );
    assert_eq!(
        EntityPath::new(String::from("orders\0forged")),
        Err(IdentifierError::ControlCharacter {
            kind: "entity path"
        })
    );
    assert_eq!(
        SessionId::new(String::from("cart-1\0forged")),
        Err(IdentifierError::ControlCharacter { kind: "session id" })
    );
}

#[test]
fn session_ids_are_bounded_and_non_empty() {
    assert_eq!(
        SessionId::new(String::from("")),
        Err(IdentifierError::Empty { kind: "session id" })
    );
    assert_eq!(
        SessionId::new("s".repeat(MAX_SESSION_ID_BYTES + 1)),
        Err(IdentifierError::TooLong {
            kind: "session id",
            maximum: MAX_SESSION_ID_BYTES
        })
    );
    assert_eq!(
        SessionId::new("s".repeat(MAX_SESSION_ID_BYTES))
            .as_ref()
            .map(SessionId::as_str),
        Ok("s".repeat(MAX_SESSION_ID_BYTES).as_str())
    );
}

#[test]
fn subscription_names_follow_service_bus_limits() {
    let longest = "s".repeat(MAX_SUBSCRIPTION_NAME_CHARACTERS);
    assert_eq!(
        SubscriptionName::new(longest.clone())
            .as_ref()
            .map(SubscriptionName::as_str),
        Ok(longest.as_str())
    );
    assert_eq!(
        SubscriptionName::new(format!("{longest}s")),
        Err(IdentifierError::TooManyCharacters {
            kind: "subscription name",
            maximum: MAX_SUBSCRIPTION_NAME_CHARACTERS,
        })
    );
    for name in [
        "",
        "bad/name",
        "bad?name",
        "bad\\name",
        "bad\0name",
        "has space",
        "café",
        ".leading",
        "trailing-",
        "$management",
        "$deadletterqueue",
    ] {
        assert!(SubscriptionName::new(String::from(name)).is_err(), "{name:?}");
    }
    for name in ["Accounting", "north-america", "priority.high", "team_2"] {
        assert!(SubscriptionName::new(String::from(name)).is_ok(), "{name:?}");
    }
}

#[test]
fn subscription_paths_use_one_canonical_well_known_segment() {
    let topic = EntityPath::new(String::from("billing")).expect("valid topic");
    let name = SubscriptionName::new(String::from("Accounting")).expect("valid subscription");
    let subscription = topic.subscription(&name).expect("valid path");
    assert_eq!(subscription.as_str(), "billing/subscriptions/Accounting");
    assert!(subscription.is_subscription());
}

#[test]
fn broker_owned_composite_paths_apply_component_limits_separately() {
    let topic = EntityPath::new("t".repeat(MAX_ENTITY_PATH_BYTES)).expect("maximum topic");
    let subscription = topic
        .subscription(
            &SubscriptionName::new("s".repeat(MAX_SUBSCRIPTION_NAME_CHARACTERS))
                .expect("maximum subscription"),
        )
        .expect("the maximum composite subscription path is valid");
    assert!(subscription.as_str().len() > MAX_ENTITY_PATH_BYTES);
    let dead_letters = subscription
        .dead_letter_queue()
        .expect("the maximum subscription DLQ path is valid");
    assert_eq!(dead_letters.as_str().len(), MAX_INTERNAL_ENTITY_PATH_BYTES);
    assert_eq!(
        EntityPath::new("x".repeat(MAX_ENTITY_PATH_BYTES + 1)),
        Err(IdentifierError::TooLong {
            kind: "entity path",
            maximum: MAX_ENTITY_PATH_BYTES,
        })
    );
}

#[test]
fn paths_that_the_broker_makes_are_known_and_differ() {
    let topic = EntityPath::new(String::from("Orders")).expect("a topic");
    let name = SubscriptionName::new(String::from("Billing")).expect("a name");
    let subscription = topic.subscription(&name).expect("a subscription");
    assert_eq!(subscription.as_str(), "Orders/subscriptions/Billing");
    assert!(subscription.is_subscription() && !subscription.is_dead_letter_queue());
    let dead = subscription.dead_letter_queue().expect("a dead-letter queue");
    assert_eq!(dead.as_str(), "Orders/subscriptions/Billing/$deadletterqueue");
    assert!(dead.is_dead_letter_queue());
    let deeper = EntityPath::new(String::from("Orders/subscriptions/a")).expect("a path");
    assert_ne!(deeper.subscription(&name).expect("a path"), subscription);
}
