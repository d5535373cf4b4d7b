use switchyard::domain::identifier::{EntityPath, NamespaceName, SessionId};
use switchyard::domain::keys::{
    after_session_ready, clock, duplicate_expiry, duplicate_expiry_parts, duplicate_expiry_prefix,
    duplicate_id, entity_scope_parts, entity_session_ready_prefix, lock, queue_config,
    queue_config_prefix, ready, ready_prefix, scheduled, session_id_after, session_lock,
    session_lock_parts, session_lock_prefix, session_ready, session_ready_prefix,
    trailing_deadline, trailing_sequence,
};
use switchyard::domain::message::SequenceNumber;
use switchyard::domain::time::Timestamp;

fn namespace() -> NamespaceName {
    NamespaceName::new(String::from("tenant")).expect("valid namespace")
}

fn entity() -> EntityPath {
    EntityPath::new(String::from("orders")).expect("valid entity path")
}

#[test]
fn ready_keys_sort_in_queue_order() {
    let mut keys = [
        ready(&namespace(), &entity(), SequenceNumber::new(2)),
        ready(&namespace(), &entity(), SequenceNumber::new(10)),
        ready(&namespace(), &entity(), SequenceNumber::new(1)),
    ];
    keys.sort();
    assert_eq!(
        keys.iter()
            .filter_map(|key| trailing_sequence(key))
            .collect::<Vec<_>>(),
        vec![
            SequenceNumber::new(1),
            SequenceNumber::new(2),
            SequenceNumber::new(10)
        ]
    );
}

#[test]
fn lock_keys_sort_by_deadline_before_sequence() {
    let early = lock(
        &namespace(),
        &entity(),
        Timestamp::from_millis(100),
        SequenceNumber::new(9),
    );
    let late = lock(
        &namespace(),
        &entity(),
        Timestamp::from_millis(200),
        SequenceNumber::new(1),
    );
    assert!(early < late);
    assert_eq!(
        trailing_deadline(&early),
        Some((Timestamp::from_millis(100), SequenceNumber::new(9)))
    );
}

#[test]
fn scheduled_keys_sort_by_enqueue_time_before_placeholder_sequence() {
    let mut keys = [
        scheduled(
            &namespace(),
            &entity(),
            Timestamp::from_millis(200),
            SequenceNumber::new(1),
        ),
        scheduled(
            &namespace(),
            &entity(),
            Timestamp::from_millis(100),
            SequenceNumber::new(9),
        ),
        scheduled(
            &namespace(),
            &entity(),
            Timestamp::from_millis(100),
            SequenceNumber::new(2),
        ),
    ];
    keys.sort();

    assert_eq!(
        keys.iter()
            .filter_map(|key| trailing_deadline(key))
            .collect::<Vec<_>>(),
        vec![
            (Timestamp::from_millis(100), SequenceNumber::new(2)),
            (Timestamp::from_millis(100), SequenceNumber::new(9)),
            (Timestamp::from_millis(200), SequenceNumber::new(1)),
        ]
    );
}

#[test]
fn duplicate_expiry_keys_sort_by_deadline_and_preserve_exact_ids() {
    let prefix = duplicate_expiry_prefix(&namespace(), &entity());
    let mut keys = [
        duplicate_expiry(
            &namespace(),
            &entity(),
            Timestamp::from_millis(200),
            "same\0bytes",
        ),
        duplicate_expiry(&namespace(), &entity(), Timestamp::from_millis(100), "zeta"),
        duplicate_expiry(
            &namespace(),
            &entity(),
            Timestamp::from_millis(100),
            "alpha",
        ),
    ];
    keys.sort();

    assert_eq!(
        keys.iter()
            .filter_map(|key| duplicate_expiry_parts(&prefix, key))
            .collect::<Vec<_>>(),
        vec![
            (Timestamp::from_millis(100), "alpha"),
            (Timestamp::from_millis(100), "zeta"),
            (Timestamp::from_millis(200), "same\0bytes"),
        ]
    );
    assert_ne!(
        duplicate_id(&namespace(), &entity(), "42"),
        duplicate_id(&namespace(), &entity(), "042")
    );
}

#[test]
fn entity_prefixes_do_not_collide_across_similar_names() {
    let short = EntityPath::new(String::from("orders")).expect("valid entity path");
    let long = EntityPath::new(String::from("orders-archive")).expect("valid entity path");
    let short_prefix = ready_prefix(&namespace(), &short);
    let long_prefix = ready_prefix(&namespace(), &long);
    assert!(!long_prefix.starts_with(&short_prefix));
}

fn session_id(value: &str) -> SessionId {
    SessionId::new(String::from(value)).expect("valid session id")
}

#[test]
fn session_ready_keys_sort_by_session_then_sequence() {
    let mut keys = [
        session_ready(
            &namespace(),
            &entity(),
            &session_id("b"),
            SequenceNumber::new(1),
        ),
        session_ready(
            &namespace(),
            &entity(),
            &session_id("a"),
            SequenceNumber::new(10),
        ),
        session_ready(
            &namespace(),
            &entity(),
            &session_id("a"),
            SequenceNumber::new(2),
        ),
    ];
    keys.sort();

    let prefix = entity_session_ready_prefix(&namespace(), &entity());
    assert_eq!(
        keys.iter()
            .filter_map(|key| Some((
                session_id_after(&prefix, key)?,
                trailing_sequence(key)?.as_u64()
            )))
            .collect::<Vec<_>>(),
        vec![("a", 2), ("a", 10), ("b", 1)]
    );
}

#[test]
fn a_walk_resumes_past_every_entry_of_a_session() {
    let prefix = entity_session_ready_prefix(&namespace(), &entity());
    let resume = after_session_ready(&namespace(), &entity(), &session_id("a"));

    // Past every key of session "a", including its highest sequence...
    assert!(
        session_ready(
            &namespace(),
            &entity(),
            &session_id("a"),
            SequenceNumber::new(u64::MAX)
        ) < resume
    );
    // ...and before the first key of any session that sorts after it, even
    // one that has "a" as a prefix.
    for later in ["ab", "b"] {
        assert!(
            resume
                < session_ready(
                    &namespace(),
                    &entity(),
                    &session_id(later),
                    SequenceNumber::new(0)
                )
        );
    }
    assert!(resume.starts_with(&prefix));
}

#[test]
fn session_lock_keys_sort_by_deadline_and_carry_their_session() {
    let prefix = session_lock_prefix(&namespace(), &entity());
    let early = session_lock(
        &namespace(),
        &entity(),
        Timestamp::from_millis(100),
        &session_id("late-session"),
    );
    let late = session_lock(
        &namespace(),
        &entity(),
        Timestamp::from_millis(200),
        &session_id("early-session"),
    );

    assert!(early < late);
    assert_eq!(
        session_lock_parts(&prefix, &early),
        Some((Timestamp::from_millis(100), "late-session"))
    );
}

#[test]
fn sessions_do_not_collide_across_similar_names() {
    let short = session_ready_prefix(&namespace(), &entity(), &session_id("cart"));
    let long = session_ready_prefix(&namespace(), &entity(), &session_id("cart-2"));
    assert!(!long.starts_with(&short));
}

#[test]
fn an_entity_scope_reads_back_out_of_its_key() {
    let key = queue_config(&namespace(), &entity());
    assert!(key.starts_with(&queue_config_prefix()));
    assert_eq!(entity_scope_parts(&key), Some(("tenant", "orders")));

    // Index keys carry a payload after the scope, which must not confuse it.
    let ready = ready(&namespace(), &entity(), SequenceNumber::new(7));
    assert_eq!(entity_scope_parts(&ready), Some(("tenant", "orders")));
    assert_eq!(entity_scope_parts(&clock()), None);
}

#[test]
fn scopes_are_separated_across_namespaces() {
    let left = NamespaceName::new(String::from("tenant-a")).expect("valid namespace");
    let right = NamespaceName::new(String::from("tenant-ab")).expect("valid namespace");
    assert!(!ready_prefix(&right, &entity()).starts_with(&ready_prefix(&left, &entity())));
}
