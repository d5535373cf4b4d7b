use hmac::{Hmac, Mac};
use base64::Engine;
use base64::engine::general_purpose::STANDARD;
use sha2::Sha256;
use switchyard::auth::policy::{SharedAccessKey, SharedAccessPolicy, SharedAccessRule};
use switchyard::auth::role::{Permission, PermissionSet, Role};
use switchyard::auth::scope::ResourceScope;
use switchyard::auth::token::SasError;

const HOST: &str = "tenant.servicebus.windows.net";
const ORDERS: &str = "amqps://tenant.servicebus.windows.net/orders";
const ENCODED_ORDERS: &str = "amqps%3A%2F%2Ftenant.servicebus.windows.net%2Forders";
const EXPIRY: u64 = 2_000_000_000;
const KNOWN_TOKEN: &str = "SharedAccessSignature \
    sr=amqps%3A%2F%2Ftenant.servicebus.windows.net%2Forders&\
    sig=R8KtgcCb7NeOCrECrMXtQ13KLGC8CiJYw0fUnUQCznw%3D&\
    se=2000000000&skn=send";

fn policy(scope: ResourceScope, primary: &str, secondary: Option<&str>) -> SharedAccessPolicy {
    let rule = SharedAccessRule::new(
        String::from("send"),
        scope,
        SharedAccessKey::new(String::from(primary)).ok().unwrap(),
        secondary.map(|key| SharedAccessKey::new(String::from(key)).ok().unwrap()),
        PermissionSet::send(),
    )
    .ok()
    .unwrap();
    SharedAccessPolicy::new(vec![rule]).ok().unwrap()
}

fn token(encoded_resource: &str, key_name: &str, expiry: u64, key: &str) -> String {
    let input = format!("{encoded_resource}\n{expiry}");
    let mut hmac = Hmac::<Sha256>::new_from_slice(key.as_bytes()).unwrap();
    hmac.update(input.as_bytes());
    let signature = STANDARD.encode(hmac.finalize().into_bytes());
    let signature = signature
        .replace('+', "%2B")
        .replace('/', "%2F")
        .replace('=', "%3D");
    format!(
        "SharedAccessSignature sr={encoded_resource}&sig={signature}&se={expiry}&skn={key_name}"
    )
}

#[test]
fn sender_cannot_manage_entities() {
    assert!(Role::Sender.allows(Permission::Send));
    assert!(!Role::Sender.allows(Permission::Manage));
}

#[test]
fn manage_includes_data_plane_rights() {
    assert!(PermissionSet::manage().allows(Permission::Manage));
    assert!(PermissionSet::manage().allows(Permission::Send));
    assert!(PermissionSet::manage().allows(Permission::Listen));
    assert!(!PermissionSet::manage().allows(Permission::Audit));
}

#[test]
fn scope_comparison_uses_path_segments() {
    let orders = ResourceScope::parse("amqps://tenant.servicebus.windows.net/orders").unwrap();
    let dead_letters =
        ResourceScope::parse("amqps://tenant.servicebus.windows.net/orders/$deadletterqueue")
            .unwrap();
    let archive =
        ResourceScope::parse("amqps://tenant.servicebus.windows.net/orders-archive").unwrap();

    assert!(orders.contains(&dead_letters));
    assert!(!orders.contains(&archive));
}

#[test]
fn a_namespace_scope_contains_its_entities_but_not_another_host() {
    let namespace = ResourceScope::namespace("tenant.servicebus.windows.net").unwrap();
    let orders = ResourceScope::entity("tenant.servicebus.windows.net", "orders").unwrap();
    let foreign = ResourceScope::entity("other.servicebus.windows.net", "orders").unwrap();

    assert!(namespace.contains(&orders));
    assert!(!namespace.contains(&foreign));
}

#[test]
fn keys_are_never_printed() {
    let key = SharedAccessKey::new(String::from("the-secret")).unwrap();
    assert_eq!(key.describe(), "<redacted>");
}

#[test]
fn a_known_service_bus_token_is_valid() {
    let policy = policy(ResourceScope::namespace(HOST).unwrap(), "secret", None);
    let grant = policy
        .validate_sas(KNOWN_TOKEN, ORDERS, EXPIRY - 1)
        .unwrap();

    assert_eq!(grant.subject(), "send");
    assert!(grant.permissions().allows(Permission::Send));
    assert!(
        grant
            .scope()
            .contains(&ResourceScope::parse(ORDERS).unwrap())
    );
}

#[test]
fn either_rotation_key_can_sign() {
    let policy = policy(
        ResourceScope::namespace(HOST).unwrap(),
        "old-key",
        Some("new-key"),
    );
    let signed = token(ENCODED_ORDERS, "send", EXPIRY, "new-key");

    assert!(policy.validate_sas(&signed, ORDERS, EXPIRY - 1).is_ok());
}

#[test]
fn plain_accepts_either_key_without_disclosing_which_part_failed() {
    let policy = policy(
        ResourceScope::namespace(HOST).unwrap(),
        "old-key",
        Some("new-key"),
    );

    assert!(policy.authenticate_plain("send", "old-key").is_ok());
    assert!(policy.authenticate_plain("send", "new-key").is_ok());
    assert_eq!(
        policy.authenticate_plain("send", "wrong"),
        Err(SasError::InvalidCredential)
    );
    assert_eq!(
        policy.authenticate_plain("unknown", "old-key"),
        Err(SasError::InvalidCredential)
    );
}

#[test]
fn tampering_and_expiry_fail_closed() {
    let policy = policy(ResourceScope::namespace(HOST).unwrap(), "secret", None);
    let tampered = KNOWN_TOKEN.replace("R8Kt", "A8Kt");

    assert_eq!(
        policy.validate_sas(&tampered, ORDERS, EXPIRY - 1),
        Err(SasError::InvalidSignature)
    );
    assert_eq!(
        policy.validate_sas(KNOWN_TOKEN, ORDERS, EXPIRY),
        Err(SasError::Expired)
    );
}

#[test]
fn duplicate_and_malformed_fields_are_refused() {
    let policy = policy(ResourceScope::namespace(HOST).unwrap(), "secret", None);
    let duplicate = format!("{KNOWN_TOKEN}&se={EXPIRY}");
    let malformed = KNOWN_TOKEN.replace("%3A", "%XZ");

    assert_eq!(
        policy.validate_sas(&duplicate, ORDERS, EXPIRY - 1),
        Err(SasError::DuplicateField)
    );
    assert_eq!(
        policy.validate_sas(&malformed, ORDERS, EXPIRY - 1),
        Err(SasError::InvalidEncoding)
    );
}

#[test]
fn an_entity_rule_cannot_mint_a_namespace_token() {
    let policy = policy(ResourceScope::parse(ORDERS).unwrap(), "secret", None);
    let encoded_namespace = "amqps%3A%2F%2Ftenant.servicebus.windows.net";
    let signed = token(encoded_namespace, "send", EXPIRY, "secret");

    assert_eq!(
        policy.validate_sas(&signed, ORDERS, EXPIRY - 1),
        Err(SasError::RuleScopeMismatch)
    );
}

#[test]
fn a_token_never_authorizes_a_sibling_resource() {
    let policy = policy(ResourceScope::namespace(HOST).unwrap(), "secret", None);
    let sibling = "amqps://tenant.servicebus.windows.net/orders-archive";

    assert_eq!(
        policy.validate_sas(KNOWN_TOKEN, sibling, EXPIRY - 1),
        Err(SasError::AudienceMismatch)
    );
}
