//! Names of namespaces, entities, sessions, subscriptions and rules.

use vstd::prelude::*;
use vstd::string::*;

use crate::bytes;
use crate::domain::wire::Wire;

verus! {

pub const MAX_NAMESPACE_NAME_BYTES: usize = 50;

/// Maximum bytes in a caller-controlled queue or topic path.
pub const MAX_ENTITY_PATH_BYTES: usize = 260;

pub const MAX_PLACEMENT_GROUP_ID_BYTES: usize = 128;

/// The Service Bus session identifier limit.
pub const MAX_SESSION_ID_BYTES: usize = 128;

/// The Service Bus subscription-name limit.
pub const MAX_SUBSCRIPTION_NAME_CHARACTERS: usize = 50;

/// The Service Bus rule-name limit.
pub const MAX_RULE_NAME_CHARACTERS: usize = 50;

/// Suffix naming an entity's dead-letter queue, per the Service Bus path model.
pub const DEAD_LETTER_QUEUE_SUFFIX: &'static str = "/$deadletterqueue";

pub const SUBSCRIPTION_PATH_SEGMENT: &'static str = "/subscriptions/";

pub const SUBSCRIPTION_COLLECTION_SUFFIX: &'static str = "/subscriptions";

pub const MANAGEMENT_SUFFIX: &'static str = "/$management";

/// The longest broker-owned path: a topic path, the subscription segment, a
/// subscription name and the dead-letter suffix.
pub const MAX_INTERNAL_ENTITY_PATH_BYTES: usize = 342;

#[derive(Clone, Copy, Debug, PartialEq, Eq)]
pub enum IdentifierError {
    Empty { kind: &'static str },
    TooLong { kind: &'static str, maximum: usize },
    TooManyCharacters { kind: &'static str, maximum: usize },
    ControlCharacter { kind: &'static str },
    RestrictedCharacter { kind: &'static str },
}

/// Unicode control characters: C0, DEL and C1.
pub open spec fn is_control(c: char) -> bool {
    c as u32 <= 0x1F || 0x7F <= c as u32 <= 0x9F
}

pub open spec fn is_alphanumeric(c: char) -> bool {
    ||| 0x30 <= c as u32 <= 0x39
    ||| 0x41 <= c as u32 <= 0x5A
    ||| 0x61 <= c as u32 <= 0x7A
}

/// Alphanumeric, or one of `.`, `-` and `_`.
pub open spec fn is_name_character(c: char) -> bool {
    is_alphanumeric(c) || c as u32 == 0x2E || c as u32 == 0x2D || c as u32 == 0x5F
}

/// What stops `text` from being an identifier of at most `maximum` bytes.
pub open spec fn identifier_fault(
    kind: &'static str,
    text: Seq<char>,
    maximum: usize,
) -> Option<IdentifierError> {
    if text.len() == 0 {
        Some(IdentifierError::Empty { kind })
    } else if bytes::utf8(text).len() > maximum {
        Some(IdentifierError::TooLong { kind, maximum })
    } else if exists|i: int| 0 <= i < text.len() && is_control(#[trigger] text[i]) {
        Some(IdentifierError::ControlCharacter { kind })
    } else {
        None
    }
}

/// Whether `value` holds a control character.
pub(crate) fn has_control(value: &str) -> (found: bool)
    ensures
        found == exists|i: int| 0 <= i < value@.len() && is_control(#[trigger] value@[i]),
{
    let count: usize = value.unicode_len();
    let mut i: usize = 0;
    while i < count
        invariant
            i <= count,
            count == value@.len(),
            forall|j: int| 0 <= j < i ==> !is_control(#[trigger] value@[j]),
        decreases count - i,
    {
        let c: u32 = value.get_char(i) as u32;
        if c <= 0x1F || (0x7F <= c && c <= 0x9F) {
            assert(is_control(value@[i as int]));
            return true;
        }
        i = i + 1;
    }
    false
}

/// Rejecting control characters is what lets the storage key encoding use a
/// zero byte to terminate the namespace and entity path segments. Without it,
/// a crafted name could forge the key of another entity.
fn validate_identifier(kind: &'static str, value: &str, maximum: usize) -> (fault: Result<
    (),
    IdentifierError,
>)
    ensures
        match fault {
            Ok(_) => identifier_fault(kind, value@, maximum) is None,
            Err(error) => identifier_fault(kind, value@, maximum) == Some(error),
        },
{
    if value.is_empty() {
        return Err(IdentifierError::Empty { kind });
    }
    if value.as_bytes().len() > maximum {
        return Err(IdentifierError::TooLong { kind, maximum });
    }
    if has_control(value) {
        return Err(IdentifierError::ControlCharacter { kind });
    }
    Ok(())
}

/// What stops `text` from naming a subscription or a rule: it is 1 to `maximum`
/// characters long and holds only name characters, the first and last of them
/// alphanumeric.
pub open spec fn name_fault(kind: &'static str, text: Seq<char>, maximum: usize) -> Option<
    IdentifierError,
> {
    if text.len() == 0 {
        Some(IdentifierError::Empty { kind })
    } else if text.len() > maximum {
        Some(IdentifierError::TooManyCharacters { kind, maximum })
    } else if !is_alphanumeric(text.first()) || !is_alphanumeric(text.last()) || exists|i: int|
        0 <= i < text.len() && !is_name_character(#[trigger] text[i]) {
        Some(IdentifierError::RestrictedCharacter { kind })
    } else {
        None
    }
}

fn alphanumeric(c: char) -> (yes: bool)
    ensures
        yes == is_alphanumeric(c),
{
    let c: u32 = c as u32;
    (0x30 <= c && c <= 0x39) || (0x41 <= c && c <= 0x5A) || (0x61 <= c && c <= 0x7A)
}

/// `text` followed by `suffix`.
fn joined(text: &str, suffix: &str) -> (whole: String)
    ensures
        whole@ == text@ + suffix@,
{
    let mut whole: String = text.to_owned();
    whole.append(suffix);
    whole
}

#[derive(Debug, PartialEq, Eq, PartialOrd, Ord, Hash)]
pub struct NamespaceName {
    text: String,
}

impl DeepView for NamespaceName {
    type V = Seq<char>;

    closed spec fn deep_view(&self) -> Seq<char> {
        self.text@
    }
}

impl Clone for NamespaceName {
    fn clone(&self) -> (copy: Self)
        ensures
            copy.deep_view() == self.deep_view(),
    {
        NamespaceName { text: self.text.clone() }
    }
}

impl NamespaceName {
    pub fn new(value: String) -> (name: Result<NamespaceName, IdentifierError>)
        ensures
            match name {
                Ok(name) => name.deep_view() == value@ && identifier_fault(
                    "namespace",
                    value@,
                    MAX_NAMESPACE_NAME_BYTES,
                ) is None,
                Err(error) => identifier_fault("namespace", value@, MAX_NAMESPACE_NAME_BYTES)
                    == Some(error),
            },
    {
        validate_identifier("namespace", value.as_str(), MAX_NAMESPACE_NAME_BYTES)?;
        Ok(NamespaceName { text: value })
    }

    pub fn as_str(&self) -> (text: &str)
        ensures
            text@ == self.deep_view(),
    {
        self.text.as_str()
    }
}

#[derive(Debug, PartialEq, Eq, PartialOrd, Ord, Hash)]
pub struct EntityPath {
    text: String,
}

impl DeepView for EntityPath {
    type V = Seq<char>;

    closed spec fn deep_view(&self) -> Seq<char> {
        self.text@
    }
}

impl Clone for EntityPath {
    fn clone(&self) -> (copy: Self)
        ensures
            copy.deep_view() == self.deep_view(),
    {
        EntityPath { text: self.text.clone() }
    }
}

/// The path of the dead-letter queue that shadows `path`.
pub open spec fn dead_letter_path(path: Seq<char>) -> Seq<char> {
    path + DEAD_LETTER_QUEUE_SUFFIX@
}

/// A dead-letter queue has a longer path than its parent.
pub proof fn dead_letter_paths_are_longer(path: Seq<char>)
    ensures
        dead_letter_path(path).len() > path.len(),
{
    reveal_strlit("/$deadletterqueue");
}

/// The path of the subscription `name` below the topic `path`.
pub open spec fn subscription_path(path: Seq<char>, name: Seq<char>) -> Seq<char> {
    path + SUBSCRIPTION_PATH_SEGMENT@ + name
}

/// `path` or the fault that keeps it from being a broker-owned path.
pub open spec fn internal_path(path: Seq<char>) -> Result<Seq<char>, IdentifierError> {
    match identifier_fault("entity path", path, MAX_INTERNAL_ENTITY_PATH_BYTES) {
        Some(error) => Err(error),
        None => Ok(path),
    }
}

/// `path` ends with the dead-letter suffix, in any letter case.
pub open spec fn names_dead_letter_queue(path: Seq<char>) -> bool {
    bytes::has_suffix(bytes::fold(bytes::utf8(path)), bytes::utf8(DEAD_LETTER_QUEUE_SUFFIX@))
}

/// `path` holds the subscription segment or names a subscription collection,
/// in any letter case.
pub open spec fn names_subscription(path: Seq<char>) -> bool {
    let folded = bytes::fold(bytes::utf8(path));
    ||| bytes::has_part(folded, bytes::utf8(SUBSCRIPTION_PATH_SEGMENT@))
    ||| bytes::has_suffix(folded, bytes::utf8(SUBSCRIPTION_COLLECTION_SUFFIX@))
}

/// `path` ends with the management suffix, in any letter case.
pub open spec fn names_management(path: Seq<char>) -> bool {
    bytes::has_suffix(bytes::fold(bytes::utf8(path)), bytes::utf8(MANAGEMENT_SUFFIX@))
}

/// The path of a dead-letter queue is known as one.
pub proof fn dead_letter_paths_are_known(path: Seq<char>)
    ensures
        names_dead_letter_queue(dead_letter_path(path)),
{
    let suffix = DEAD_LETTER_QUEUE_SUFFIX@;
    reveal_strlit("/$deadletterqueue");
    bytes::utf8_joins(path, suffix);
    bytes::lower_case_is_folded(suffix);
    let folded = bytes::fold(bytes::utf8(dead_letter_path(path)));
    let end = bytes::utf8(suffix);
    assert(folded =~= bytes::fold(bytes::utf8(path)) + bytes::fold(end));
    assert(folded.subrange(folded.len() - end.len(), folded.len() as int) =~= end);
}

/// The path of a subscription is known as one.
pub proof fn subscription_paths_are_known(topic: Seq<char>, name: Seq<char>)
    ensures
        names_subscription(subscription_path(topic, name)),
{
    let segment = SUBSCRIPTION_PATH_SEGMENT@;
    reveal_strlit("/subscriptions/");
    bytes::utf8_joins(topic, segment);
    bytes::utf8_joins(topic + segment, name);
    bytes::lower_case_is_folded(segment);
    let folded = bytes::fold(bytes::utf8(subscription_path(topic, name)));
    let part = bytes::utf8(segment);
    let at = bytes::utf8(topic).len() as int;
    assert(folded =~= bytes::fold(bytes::utf8(topic)) + bytes::fold(part) + bytes::fold(
        bytes::utf8(name),
    ));
    assert(folded.subrange(at, at + part.len()) =~= part);
    assert(bytes::occurs_at(folded, part, at));
}

proof fn names_hold_no_slash(name: Seq<char>)
    requires
        name_fault("subscription name", name, MAX_SUBSCRIPTION_NAME_CHARACTERS) is None,
    ensures
        forall|i: int| 0 <= i < name.len() ==> #[trigger] name[i] != '/' && name[i] != '$',
{
    assert forall|i: int| 0 <= i < name.len() implies #[trigger] name[i] != '/' && name[i]
        != '$' by {
        assert(is_name_character(name[i]));
    }
}

/// No two subscriptions share a path.
pub proof fn subscriptions_share_no_path(
    topic: Seq<char>,
    name: Seq<char>,
    other_topic: Seq<char>,
    other_name: Seq<char>,
)
    requires
        name_fault("subscription name", name, MAX_SUBSCRIPTION_NAME_CHARACTERS) is None,
        name_fault("subscription name", other_name, MAX_SUBSCRIPTION_NAME_CHARACTERS) is None,
        subscription_path(topic, name) == subscription_path(other_topic, other_name),
    ensures
        topic == other_topic,
        name == other_name,
{
    reveal_strlit("/subscriptions/");
    names_hold_no_slash(name);
    names_hold_no_slash(other_name);
    let path = subscription_path(topic, name);
    let last = topic.len() + SUBSCRIPTION_PATH_SEGMENT@.len() - 1;
    let other_last = other_topic.len() + SUBSCRIPTION_PATH_SEGMENT@.len() - 1;
    assert(path.len() == topic.len() + SUBSCRIPTION_PATH_SEGMENT@.len() + name.len());
    assert(path.len() == other_topic.len() + SUBSCRIPTION_PATH_SEGMENT@.len() + other_name.len());
    assert(path[last] == '/');
    assert(path[other_last] == '/') by {
        assert(subscription_path(other_topic, other_name)[other_last] == '/');
    }
    if last < other_last {
        assert(path[other_last] == name[other_last - last - 1]);
    }
    if other_last < last {
        assert(subscription_path(other_topic, other_name)[last] == other_name[last - other_last
            - 1]);
    }
    assert(topic =~= path.take(topic.len() as int));
    assert(other_topic =~= path.take(topic.len() as int));
    assert(name =~= path.skip(last + 1));
    assert(other_name =~= path.skip(last + 1));
}

/// In the path of a subscription the name stands behind the last slash.
proof fn names_stand_behind_the_last_slash(path: Seq<char>, at: int, topic: Seq<char>, name: Seq<char>)
    requires
        name_fault("subscription name", name, MAX_SUBSCRIPTION_NAME_CHARACTERS) is None,
        path == subscription_path(topic, name),
        0 <= at <= path.len(),
        at > 0 ==> path[at - 1] == '/',
        forall|j: int| at <= j < path.len() ==> path[j] != '/',
    ensures
        at == topic.len() + SUBSCRIPTION_PATH_SEGMENT@.len(),
        path.subrange(topic.len() as int, at) == SUBSCRIPTION_PATH_SEGMENT@,
        path.subrange(at, path.len() as int) == name,
{
    reveal_strlit("/subscriptions/");
    names_hold_no_slash(name);
    let behind = topic.len() + SUBSCRIPTION_PATH_SEGMENT@.len();
    assert(path[behind - 1] == '/');
    if at > behind {
        assert(path[at - 1] == name[at - 1 - behind]);
    }
    assert(path.subrange(topic.len() as int, at) =~= SUBSCRIPTION_PATH_SEGMENT@);
    assert(path.subrange(at, path.len() as int) =~= name);
}

/// No subscription has the path of a dead-letter queue.
pub proof fn no_subscription_is_a_dead_letter_queue(
    topic: Seq<char>,
    name: Seq<char>,
    path: Seq<char>,
)
    requires
        name_fault("subscription name", name, MAX_SUBSCRIPTION_NAME_CHARACTERS) is None,
    ensures
        subscription_path(topic, name) != dead_letter_path(path),
{
    reveal_strlit("/subscriptions/");
    reveal_strlit("/$deadletterqueue");
    names_hold_no_slash(name);
    let whole = subscription_path(topic, name);
    let last = topic.len() + SUBSCRIPTION_PATH_SEGMENT@.len() - 1;
    assert(whole.len() == topic.len() + SUBSCRIPTION_PATH_SEGMENT@.len() + name.len());
    if whole == dead_letter_path(path) {
        assert(whole.len() == path.len() + DEAD_LETTER_QUEUE_SUFFIX@.len());
        let at = path.len() as int;
        assert(whole[last] == '/');
        assert(dead_letter_path(path)[at] == '/' && dead_letter_path(path)[at + 1] == '$');
        if at < last {
            assert(dead_letter_path(path)[last] == DEAD_LETTER_QUEUE_SUFFIX@[last - at]);
        } else {
            assert(whole[at + 1] == name[at - last]);
        }
    }
}

impl EntityPath {
    pub fn new(value: String) -> (path: Result<EntityPath, IdentifierError>)
        ensures
            match path {
                Ok(path) => path.deep_view() == value@ && identifier_fault(
                    "entity path",
                    value@,
                    MAX_ENTITY_PATH_BYTES,
                ) is None,
                Err(error) => identifier_fault("entity path", value@, MAX_ENTITY_PATH_BYTES)
                    == Some(error),
            },
    {
        validate_identifier("entity path", value.as_str(), MAX_ENTITY_PATH_BYTES)?;
        Ok(EntityPath { text: value })
    }

    pub fn as_str(&self) -> (text: &str)
        ensures
            text@ == self.deep_view(),
    {
        self.text.as_str()
    }

    /// Rehydrates a broker-owned composite path whose individually validated
    /// topic and subscription components may exceed the top-level name bound
    /// once their well-known path segments are joined.
    pub(crate) fn from_internal(value: String) -> (path: Result<EntityPath, IdentifierError>)
        ensures
            match path {
                Ok(path) => internal_path(value@) == Ok::<Seq<char>, IdentifierError>(
                    path.deep_view(),
                ),
                Err(error) => internal_path(value@) == Err::<Seq<char>, IdentifierError>(error),
            },
    {
        validate_identifier("entity path", value.as_str(), MAX_INTERNAL_ENTITY_PATH_BYTES)?;
        Ok(EntityPath { text: value })
    }

    /// The dead-letter queue that shadows this entity.
    ///
    /// Top-level names and subscription names are validated separately, so the
    /// broker-owned composite address has room for this well-known suffix.
    pub fn dead_letter_queue(&self) -> (path: Result<EntityPath, IdentifierError>)
        ensures
            match path {
                Ok(path) => internal_path(dead_letter_path(self.deep_view())) == Ok::<
                    Seq<char>,
                    IdentifierError,
                >(path.deep_view()),
                Err(error) => internal_path(dead_letter_path(self.deep_view())) == Err::<
                    Seq<char>,
                    IdentifierError,
                >(error),
            },
    {
        EntityPath::from_internal(joined(self.text.as_str(), DEAD_LETTER_QUEUE_SUFFIX))
    }

    /// Whether this path names a dead-letter queue. Such paths are reserved:
    /// they exist as shadows of their parent, never created or sent to
    /// directly.
    pub fn is_dead_letter_queue(&self) -> (yes: bool)
        ensures
            yes == names_dead_letter_queue(self.deep_view()),
    {
        let folded = bytes::fold_bytes(self.text.as_str().as_bytes());
        bytes::ends_with(folded.as_slice(), DEAD_LETTER_QUEUE_SUFFIX.as_bytes())
    }

    /// Whether this path occupies the reserved subscription-address shape.
    pub fn is_subscription(&self) -> (yes: bool)
        ensures
            yes == names_subscription(self.deep_view()),
    {
        let folded = bytes::fold_bytes(self.text.as_str().as_bytes());
        bytes::contains(folded.as_slice(), SUBSCRIPTION_PATH_SEGMENT.as_bytes())
            || bytes::ends_with(folded.as_slice(), SUBSCRIPTION_COLLECTION_SUFFIX.as_bytes())
    }

    /// Whether this path collides with the entity-local AMQP management node.
    pub fn is_management(&self) -> (yes: bool)
        ensures
            yes == names_management(self.deep_view()),
    {
        let folded = bytes::fold_bytes(self.text.as_str().as_bytes());
        bytes::ends_with(folded.as_slice(), MANAGEMENT_SUFFIX.as_bytes())
    }

    /// The canonical storage and protocol path of a subscription below this
    /// topic. The well-known segment is folded while the caller-controlled
    /// topic and subscription names retain their case.
    pub fn subscription(&self, name: &SubscriptionName) -> (path: Result<
        EntityPath,
        IdentifierError,
    >)
        ensures
            match path {
                Ok(path) => internal_path(
                    subscription_path(self.deep_view(), name.deep_view()),
                ) == Ok::<Seq<char>, IdentifierError>(path.deep_view()),
                Err(error) => internal_path(
                    subscription_path(self.deep_view(), name.deep_view()),
                ) == Err::<Seq<char>, IdentifierError>(error),
            },
    {
        let below = joined(self.text.as_str(), SUBSCRIPTION_PATH_SEGMENT);
        EntityPath::from_internal(joined(below.as_str(), name.as_str()))
    }

    /// The topic and the name of the subscription whose canonical path this is.
    pub(crate) fn subscription_parts(&self) -> (parts: Option<(&str, SubscriptionName)>)
        ensures
            match parts {
                Some((topic, name)) => self.deep_view() == subscription_path(
                    topic@,
                    name.deep_view(),
                ) && name_fault(
                    "subscription name",
                    name.deep_view(),
                    MAX_SUBSCRIPTION_NAME_CHARACTERS,
                ) is None,
                None => forall|topic: Seq<char>, name: Seq<char>|
                    name_fault("subscription name", name, MAX_SUBSCRIPTION_NAME_CHARACTERS) is None
                        ==> self.deep_view() != #[trigger] subscription_path(topic, name),
            },
    {
        let text: &str = self.text.as_str();
        let count: usize = text.unicode_len();
        let mut at: usize = count;
        while at > 0 && text.get_char(at - 1) != '/'
            invariant
                at <= count == text@.len(),
                forall|j: int| at <= j < count ==> text@[j] != '/',
            decreases at,
        {
            at = at - 1;
        }
        proof {
            assert forall|topic: Seq<char>, name: Seq<char>|
                name_fault("subscription name", name, MAX_SUBSCRIPTION_NAME_CHARACTERS) is None
                    && text@ == #[trigger] subscription_path(topic, name) implies {
                &&& at == topic.len() + SUBSCRIPTION_PATH_SEGMENT@.len()
                &&& text@.subrange(topic.len() as int, at as int) == SUBSCRIPTION_PATH_SEGMENT@
                &&& text@.subrange(at as int, text@.len() as int) == name
            } by {
                names_stand_behind_the_last_slash(text@, at as int, topic, name);
            }
        }
        let head: usize = SUBSCRIPTION_PATH_SEGMENT.unicode_len();
        if at < head || !bytes::same_text(
            text.substring_char(at - head, at),
            SUBSCRIPTION_PATH_SEGMENT,
        ) {
            return None;
        }
        let topic: &str = text.substring_char(0, at - head);
        match SubscriptionName::new(text.substring_char(at, count).to_owned()) {
            Ok(name) => {
                assert(text@ =~= subscription_path(topic@, name.deep_view()));
                Some((topic, name))
            },
            Err(_) => None,
        }
    }
}

/// Names the ordered subset of a queue a session receiver owns.
///
/// Ordering within a session is the only FIFO guarantee the broker makes, and a
/// session identifier is part of the key of every message in it, so the same
/// control-character rule applies here as to the entity scope.
#[derive(Debug, PartialEq, Eq, PartialOrd, Ord, Hash)]
pub struct SessionId {
    text: String,
}

impl DeepView for SessionId {
    type V = Seq<char>;

    closed spec fn deep_view(&self) -> Seq<char> {
        self.text@
    }
}

impl Clone for SessionId {
    fn clone(&self) -> (copy: Self)
        ensures
            copy.deep_view() == self.deep_view(),
    {
        SessionId { text: self.text.clone() }
    }
}

/// `text` as a session identifier, or what is wrong with it.
pub open spec fn session_id_of(text: Seq<char>) -> Result<Seq<char>, IdentifierError> {
    match identifier_fault("session id", text, MAX_SESSION_ID_BYTES) {
        Some(error) => Err(error),
        None => Ok(text),
    }
}

impl SessionId {
    pub fn new(value: String) -> (id: Result<SessionId, IdentifierError>)
        ensures
            match id {
                Ok(id) => session_id_of(value@) == Ok::<Seq<char>, IdentifierError>(
                    id.deep_view(),
                ),
                Err(error) => session_id_of(value@) == Err::<Seq<char>, IdentifierError>(error),
            },
    {
        validate_identifier("session id", value.as_str(), MAX_SESSION_ID_BYTES)?;
        Ok(SessionId { text: value })
    }

    pub fn as_str(&self) -> (text: &str)
        ensures
            text@ == self.deep_view(),
    {
        self.text.as_str()
    }
}

/// One durable subscription below a topic.
#[derive(Debug, PartialEq, Eq, PartialOrd, Ord, Hash)]
pub struct SubscriptionName {
    text: String,
}

impl DeepView for SubscriptionName {
    type V = Seq<char>;

    closed spec fn deep_view(&self) -> Seq<char> {
        self.text@
    }
}

impl Clone for SubscriptionName {
    fn clone(&self) -> (copy: Self)
        ensures
            copy.deep_view() == self.deep_view(),
    {
        SubscriptionName { text: self.text.clone() }
    }
}

impl SubscriptionName {
    #[verifier::loop_isolation(false)]
    pub fn new(value: String) -> (name: Result<SubscriptionName, IdentifierError>)
        ensures
            match name {
                Ok(name) => name.deep_view() == value@ && name_fault(
                    "subscription name",
                    value@,
                    MAX_SUBSCRIPTION_NAME_CHARACTERS,
                ) is None,
                Err(error) => name_fault(
                    "subscription name",
                    value@,
                    MAX_SUBSCRIPTION_NAME_CHARACTERS,
                ) == Some(error),
            },
    {
        let text: &str = value.as_str();
        if text.is_empty() {
            return Err(IdentifierError::Empty { kind: "subscription name" });
        }
        let count: usize = text.unicode_len();
        if count > MAX_SUBSCRIPTION_NAME_CHARACTERS {
            return Err(
                IdentifierError::TooManyCharacters {
                    kind: "subscription name",
                    maximum: MAX_SUBSCRIPTION_NAME_CHARACTERS,
                },
            );
        }
        if !alphanumeric(text.get_char(0)) || !alphanumeric(text.get_char(count - 1)) {
            return Err(IdentifierError::RestrictedCharacter { kind: "subscription name" });
        }
        let mut i: usize = 0;
        while i < count
            invariant
                i <= count,
                forall|j: int| 0 <= j < i ==> is_name_character(#[trigger] text@[j]),
            decreases count - i,
        {
            let c: char = text.get_char(i);
            let code: u32 = c as u32;
            if !alphanumeric(c) && code != 0x2E && code != 0x2D && code != 0x5F {
                assert(!is_name_character(text@[i as int]));
                return Err(IdentifierError::RestrictedCharacter { kind: "subscription name" });
            }
            i = i + 1;
        }
        Ok(SubscriptionName { text: value })
    }

    pub fn as_str(&self) -> (text: &str)
        ensures
            text@ == self.deep_view(),
    {
        self.text.as_str()
    }
}

/// Names one rule of a subscription.
#[derive(Debug, PartialEq, Eq, PartialOrd, Ord, Hash)]
pub struct RuleName {
    text: String,
}

impl DeepView for RuleName {
    type V = Seq<char>;

    closed spec fn deep_view(&self) -> Seq<char> {
        self.text@
    }
}

impl Clone for RuleName {
    fn clone(&self) -> (copy: Self)
        ensures
            copy.deep_view() == self.deep_view(),
    {
        RuleName { text: self.text.clone() }
    }
}

/// What stops `text` from naming a rule.
pub open spec fn rule_name_fault(text: Seq<char>) -> Option<IdentifierError> {
    if text.len() == 0 {
        Some(IdentifierError::Empty { kind: "rule name" })
    } else if text.len() > MAX_RULE_NAME_CHARACTERS {
        Some(
            IdentifierError::TooManyCharacters {
                kind: "rule name",
                maximum: MAX_RULE_NAME_CHARACTERS,
            },
        )
    } else if exists|i: int| 0 <= i < text.len() && is_control(#[trigger] text[i]) {
        Some(IdentifierError::ControlCharacter { kind: "rule name" })
    } else {
        None
    }
}

impl RuleName {
    pub fn new(value: String) -> (name: Result<RuleName, IdentifierError>)
        ensures
            match name {
                Ok(name) => name.deep_view() == value@ && rule_name_fault(value@) is None,
                Err(error) => rule_name_fault(value@) == Some(error),
            },
    {
        let text: &str = value.as_str();
        if text.is_empty() {
            return Err(IdentifierError::Empty { kind: "rule name" });
        }
        if text.unicode_len() > MAX_RULE_NAME_CHARACTERS {
            return Err(
                IdentifierError::TooManyCharacters {
                    kind: "rule name",
                    maximum: MAX_RULE_NAME_CHARACTERS,
                },
            );
        }
        if has_control(text) {
            return Err(IdentifierError::ControlCharacter { kind: "rule name" });
        }
        Ok(RuleName { text: value })
    }

    pub fn as_str(&self) -> (text: &str)
        ensures
            text@ == self.deep_view(),
    {
        self.text.as_str()
    }

    /// A name as it stands in a stored value, which is not checked again.
    pub(crate) fn stored(text: String) -> (name: RuleName)
        ensures
            name.deep_view() == text@,
    {
        RuleName { text }
    }
}

#[derive(Debug, PartialEq, Eq, PartialOrd, Ord, Hash)]
pub struct PlacementGroupId {
    text: String,
}

impl DeepView for PlacementGroupId {
    type V = Seq<char>;

    closed spec fn deep_view(&self) -> Seq<char> {
        self.text@
    }
}

impl PlacementGroupId {
    pub fn new(value: String) -> (id: Result<PlacementGroupId, IdentifierError>)
        ensures
            match id {
                Ok(id) => id.deep_view() == value@ && identifier_fault(
                    "placement group",
                    value@,
                    MAX_PLACEMENT_GROUP_ID_BYTES,
                ) is None,
                Err(error) => identifier_fault(
                    "placement group",
                    value@,
                    MAX_PLACEMENT_GROUP_ID_BYTES,
                ) == Some(error),
            },
    {
        validate_identifier("placement group", value.as_str(), MAX_PLACEMENT_GROUP_ID_BYTES)?;
        Ok(PlacementGroupId { text: value })
    }

    pub fn as_str(&self) -> (text: &str)
        ensures
            text@ == self.deep_view(),
    {
        self.text.as_str()
    }
}

impl Wire for EntityPath {
    open spec fn fits(v: Seq<char>) -> bool {
        <String as Wire>::fits(v)
    }

    open spec fn wire(v: Seq<char>) -> Seq<u8> {
        <String as Wire>::wire(v)
    }

    open spec fn unwire(b: Seq<u8>) -> Option<(Seq<char>, Seq<u8>)> {
        <String as Wire>::unwire(b)
    }

    proof fn round_trip(v: Seq<char>, rest: Seq<u8>) {
        <String as Wire>::round_trip(v, rest);
    }

    fn write(&self, out: &mut Vec<u8>) {
        self.text.write(out);
    }

    fn read(b: &[u8]) -> (taken: Option<(EntityPath, &[u8])>) {
        match <String as Wire>::read(b) {
            Some((text, rest)) => Some((EntityPath { text }, rest)),
            None => None,
        }
    }
}

impl Wire for SessionId {
    open spec fn fits(v: Seq<char>) -> bool {
        <String as Wire>::fits(v)
    }

    open spec fn wire(v: Seq<char>) -> Seq<u8> {
        <String as Wire>::wire(v)
    }

    open spec fn unwire(b: Seq<u8>) -> Option<(Seq<char>, Seq<u8>)> {
        <String as Wire>::unwire(b)
    }

    proof fn round_trip(v: Seq<char>, rest: Seq<u8>) {
        <String as Wire>::round_trip(v, rest);
    }

    fn write(&self, out: &mut Vec<u8>) {
        self.text.write(out);
    }

    fn read(b: &[u8]) -> (taken: Option<(SessionId, &[u8])>) {
        match <String as Wire>::read(b) {
            Some((text, rest)) => Some((SessionId { text }, rest)),
            None => None,
        }
    }
}

impl Wire for RuleName {
    open spec fn fits(v: Seq<char>) -> bool {
        <String as Wire>::fits(v)
    }

    open spec fn wire(v: Seq<char>) -> Seq<u8> {
        <String as Wire>::wire(v)
    }

    open spec fn unwire(b: Seq<u8>) -> Option<(Seq<char>, Seq<u8>)> {
        <String as Wire>::unwire(b)
    }

    proof fn round_trip(v: Seq<char>, rest: Seq<u8>) {
        <String as Wire>::round_trip(v, rest);
    }

    fn write(&self, out: &mut Vec<u8>) {
        self.text.write(out);
    }

    fn read(b: &[u8]) -> (taken: Option<(RuleName, &[u8])>) {
        match <String as Wire>::read(b) {
            Some((text, rest)) => Some((RuleName { text }, rest)),
            None => None,
        }
    }
}

} // verus!
