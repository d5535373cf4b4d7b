//! Durable topics and atomic subscription fanout.

use vstd::prelude::*;
use vstd::string::*;

use crate::domain::codec;
use crate::domain::command::{Command, CommandOutcome, CommandView, InputView, OutcomeView};
use crate::domain::error;
use crate::domain::error::{BrokerError, ErrorView};
use crate::domain::identifier;
use crate::domain::identifier::{EntityPath, NamespaceName, SubscriptionName};
use crate::domain::keys;
use crate::domain::machine;
use crate::domain::machine::duplicate;
use crate::domain::machine::rules;
use crate::domain::machine::send;
use crate::domain::machine::send::SendInput;
use crate::domain::machine::shared;
use crate::domain::machine::{StateMachine, Step};
use crate::domain::message::{
    MessageRecord, RecordView, SequenceNumber, MAX_MESSAGE_ID_CHARACTERS,
};
use crate::domain::queue;
use crate::domain::queue::{QueueConfig, QueueCounters};
use crate::domain::rule;
use crate::domain::rule::{FilterProperties, PropertiesView, RuleDefinition, RuleDefinitionView};
use crate::domain::topic;
use crate::domain::topic::{SubscriptionConfig, TopicConfig, MAX_TOPIC_SUBSCRIPTIONS};
use crate::storage::{Contents, OpView, StateStore, WriteBatch};

verus! {

// ---- what is decided -------------------------------------------------------

pub open spec fn topic_at(m: Contents, namespace: Seq<char>, topic: Seq<char>) -> Result<
    Option<TopicConfig>,
    ErrorView,
> {
    machine::value_at::<TopicConfig>(m, keys::topic_config_key(namespace, topic))
}

/// The first `limit` subscriptions of a topic, in the order of names.
pub open spec fn subscriptions_of(
    m: Contents,
    namespace: Seq<char>,
    topic: Seq<char>,
    limit: usize,
) -> Result<Seq<Seq<char>>, ErrorView> {
    rules::values_below::<EntityPath>(
        m,
        keys::topic_subscription_prefix_key(namespace, topic),
        limit,
    )
}

/// The settings of the topic a command names.
pub open spec fn topic_of(m: Contents, c: CommandView) -> Result<TopicConfig, ErrorView> {
    match topic_at(m, c.namespace, c.entity) {
        Ok(Some(config)) => Ok(config),
        Ok(None) => Err(ErrorView::TopicNotFound),
        Err(error) => Err(error),
    }
}

/// Whether a path is that of a subscription of `topic` which was created.
pub open spec fn is_subscription_of(
    m: Contents,
    namespace: Seq<char>,
    topic: Seq<char>,
    path: Seq<char>,
) -> bool {
    exists|name: Seq<char>|
        #![trigger identifier::subscription_path(topic, name)]
        {
            &&& identifier::name_fault(
                "subscription name",
                name,
                identifier::MAX_SUBSCRIPTION_NAME_CHARACTERS,
            ) is None
            &&& path == identifier::subscription_path(topic, name)
            &&& m.dom().contains(keys::topic_subscription_key(namespace, topic, name))
        }
}

/// Whether a path is that of a subscription which was created. A queue may have a
/// path of the same shape.
pub open spec fn is_subscription(m: Contents, namespace: Seq<char>, path: Seq<char>) -> bool {
    exists|topic: Seq<char>| is_subscription_of(m, namespace, topic, path)
}

/// What creating a topic does.
pub open spec fn create_topic_step(
    m: Contents,
    c: CommandView,
    config: TopicConfig,
    batch: Seq<OpView>,
) -> Step {
    let key = keys::topic_config_key(c.namespace, c.entity);
    if identifier::names_dead_letter_queue(c.entity) || identifier::names_subscription(c.entity)
        || identifier::names_management(c.entity) {
        Err(ErrorView::EntityPathReserved)
    } else if m.dom().contains(key) {
        Err(ErrorView::TopicAlreadyExists)
    } else if m.dom().contains(keys::queue_config_key(c.namespace, c.entity)) {
        Err(ErrorView::EntityAlreadyExists)
    } else {
        match topic::topic_config_fault(config) {
            Some(error) => Err(ErrorView::TopicConfig(error)),
            None => Ok(
                (
                    batch.push(shared::put(key, codec::encoded::<TopicConfig>(config))),
                    OutcomeView::TopicCreated,
                ),
            ),
        }
    }
}

/// The queue that shadows the queue of a subscription: the same limits, without
/// lifetimes, sessions or duplicate detection, and without a delivery limit.
pub open spec fn subscription_shadow(config: QueueConfig) -> QueueConfig {
    QueueConfig {
        max_delivery_count: u32::MAX,
        default_time_to_live_millis: None,
        requires_session: false,
        requires_duplicate_detection: false,
        ..config
    }
}

/// The settings of the queue behind a new subscription.
pub open spec fn checked_subscription_queue(
    config: SubscriptionConfig,
    topic_config: TopicConfig,
) -> Result<QueueConfig, ErrorView> {
    match topic::subscription_config_fault(config) {
        Some(error) => Err(ErrorView::SubscriptionConfig(error)),
        None => {
            let config = topic::subscription_queue(config, topic_config);
            match queue::queue_config_fault(config) {
                Some(error) => Err(ErrorView::QueueConfig(error)),
                None => Ok(config),
            }
        },
    }
}

/// The changes that create a subscription with its queue, its dead-letter queue
/// and its match-all rule.
pub open spec fn subscription_changes(
    c: CommandView,
    name: Seq<char>,
    entity: Seq<char>,
    shadow: Seq<char>,
    config: QueueConfig,
    batch: Seq<OpView>,
) -> Seq<OpView> {
    batch.push(
        shared::put(
            keys::topic_subscription_key(c.namespace, c.entity, name),
            codec::encoded::<EntityPath>(entity),
        ),
    ).push(
        shared::put(
            keys::queue_config_key(c.namespace, entity),
            codec::encoded::<QueueConfig>(config),
        ),
    ).push(
        shared::put(
            keys::queue_config_key(c.namespace, shadow),
            codec::encoded::<QueueConfig>(subscription_shadow(config)),
        ),
    ).push(
        shared::put(
            keys::subscription_rule_key(c.namespace, entity, rule::DEFAULT_RULE_NAME@),
            codec::encoded::<RuleDefinition>(rule::default_rule(c.issued_at)),
        ),
    )
}

/// What creating a subscription does.
pub open spec fn create_subscription_step(
    m: Contents,
    c: CommandView,
    name: Seq<char>,
    config: SubscriptionConfig,
    batch: Seq<OpView>,
) -> Step {
    match topic_of(m, c) {
        Err(error) => Err(error),
        Ok(topic_config) => if m.dom().contains(
            keys::topic_subscription_key(c.namespace, c.entity, name),
        ) {
            Err(ErrorView::SubscriptionAlreadyExists)
        } else {
            match subscriptions_of(
                m,
                c.namespace,
                c.entity,
                (MAX_TOPIC_SUBSCRIPTIONS + 1) as usize,
            ) {
                Err(error) => Err(error),
                Ok(subscriptions) => if subscriptions.len() >= MAX_TOPIC_SUBSCRIPTIONS {
                    Err(ErrorView::SubscriptionLimitExceeded { maximum: MAX_TOPIC_SUBSCRIPTIONS })
                } else {
                    match identifier::internal_path(
                        identifier::subscription_path(c.entity, name),
                    ) {
                        Err(error) => Err(ErrorView::Identifier(error)),
                        Ok(entity) => if m.dom().contains(
                            keys::queue_config_key(c.namespace, entity),
                        ) || m.dom().contains(keys::topic_config_key(c.namespace, entity)) {
                            Err(ErrorView::EntityAlreadyExists)
                        } else {
                            match machine::shadow_of(entity) {
                                Err(error) => Err(error),
                                Ok(shadow) => match checked_subscription_queue(
                                    config,
                                    topic_config,
                                ) {
                                    Err(error) => Err(error),
                                    Ok(queue_config) => Ok(
                                        (
                                            subscription_changes(
                                                c,
                                                name,
                                                entity,
                                                shadow,
                                                queue_config,
                                                batch,
                                            ),
                                            OutcomeView::SubscriptionCreated { entity },
                                        ),
                                    ),
                                },
                            }
                        },
                    }
                },
            }
        },
    }
}

/// What stops one message from being published.
pub open spec fn topic_input_fault(config: TopicConfig, input: InputView) -> Option<ErrorView> {
    if input.scheduled_enqueue_at is Some {
        Some(ErrorView::TopicSchedulingNotSupported)
    } else if input.session_id is Some {
        Some(ErrorView::TopicSessionNotSupported)
    } else if input.message_id.len() > MAX_MESSAGE_ID_CHARACTERS {
        Some(
            ErrorView::MessageIdTooLong {
                characters: input.message_id.len() as usize,
                maximum: MAX_MESSAGE_ID_CHARACTERS,
            },
        )
    } else if send::message_bytes(input) > config.max_message_bytes {
        Some(
            ErrorView::MessageTooLarge {
                body_bytes: send::message_bytes(input) as usize,
                maximum_bytes: config.max_message_bytes,
            },
        )
    } else {
        None
    }
}

/// The first fault from index `i` on.
pub open spec fn topic_fault_from(config: TopicConfig, inputs: Seq<InputView>, i: int) -> Option<
    ErrorView,
>
    decreases inputs.len() - i,
{
    if i >= inputs.len() {
        None
    } else {
        match topic_input_fault(config, inputs[i]) {
            Some(error) => Some(error),
            None => topic_fault_from(config, inputs, i + 1),
        }
    }
}

/// The properties that rules see: those of the envelope, with the identifiers
/// of the message in place of its own.
pub open spec fn inspected(input: InputView) -> PropertiesView {
    let carried = match input.envelope {
        Some(envelope) => envelope.filter_properties,
        None => rule::no_properties(),
    };
    let named = if input.message_id.len() > 0 {
        PropertiesView { message_id: Some(input.message_id), ..carried }
    } else {
        carried
    };
    match input.session_id {
        Some(id) => PropertiesView { session_id: Some(id), ..named },
        None => named,
    }
}

/// A rule of the subscription selects the message.
pub open spec fn any_selects(rules: Seq<RuleDefinitionView>, properties: PropertiesView) -> bool {
    exists|i: int|
        0 <= i < rules.len() && rule::selects((#[trigger] rules[i]).filter, properties)
}

/// A subscription as a publication sees it.
pub struct Subscriber {
    pub path: Seq<char>,
    pub config: QueueConfig,
    pub rules: Seq<RuleDefinitionView>,
}

/// The queue and the rules of one subscription.
pub open spec fn subscriber(m: Contents, namespace: Seq<char>, path: Seq<char>) -> Result<
    Subscriber,
    ErrorView,
> {
    match machine::queue_at(m, namespace, path) {
        Err(error) => Err(error),
        Ok(None) => Err(ErrorView::DanglingSubscription { entity: path }),
        Ok(Some(config)) => match rules::rules_of(m, namespace, path) {
            Err(error) => Err(error),
            Ok(rules) => Ok(Subscriber { path, config, rules }),
        },
    }
}

/// `found` followed by the subscriptions from index `i` on.
pub open spec fn subscribers_from(
    m: Contents,
    namespace: Seq<char>,
    paths: Seq<Seq<char>>,
    i: int,
    found: Seq<Subscriber>,
) -> Result<Seq<Subscriber>, ErrorView>
    decreases paths.len() - i,
{
    if i >= paths.len() {
        Ok(found)
    } else {
        match subscriber(m, namespace, paths[i]) {
            Err(error) => Err(error),
            Ok(next) => subscribers_from(m, namespace, paths, i + 1, found.push(next)),
        }
    }
}

/// One subscription's copy of a message is stored.
pub open spec fn copy_changes(
    c: CommandView,
    path: Seq<char>,
    record: RecordView,
    batch: Seq<OpView>,
) -> Seq<OpView> {
    let kept = batch.push(
        shared::put(
            keys::message_key(c.namespace, path, record.sequence),
            codec::encoded::<MessageRecord>(record),
        ),
    ).push(shared::mark(keys::ready_key(c.namespace, path, record.sequence)));
    match record.expires_at {
        Some(at) => kept.push(
            shared::mark(keys::expiry_key(c.namespace, path, at, record.sequence)),
        ),
        None => kept,
    }
}

/// The copy of a message for one subscription.
pub open spec fn copy_of(
    c: CommandView,
    input: InputView,
    sequence: SequenceNumber,
    topic_config: TopicConfig,
    config: QueueConfig,
) -> RecordView {
    send::new_record(
        c,
        input,
        sequence,
        send::effective_lifetime(
            send::effective_lifetime(
                input.time_to_live_millis,
                topic_config.default_time_to_live_millis,
            ),
            config.default_time_to_live_millis,
        ),
    )
}

/// Changes and, for each subscription, whether it received something.
pub type FanoutState = (Seq<OpView>, Seq<bool>);

/// The subscriptions from index `i` on whose rules select the message receive
/// their copy.
pub open spec fn fan_out(
    c: CommandView,
    topic_config: TopicConfig,
    input: InputView,
    sequence: SequenceNumber,
    properties: PropertiesView,
    subscribers: Seq<Subscriber>,
    i: int,
    state: FanoutState,
) -> FanoutState
    decreases subscribers.len() - i,
{
    if i >= subscribers.len() {
        state
    } else {
        let next = if any_selects(subscribers[i].rules, properties) {
            (
                copy_changes(
                    c,
                    subscribers[i].path,
                    copy_of(c, input, sequence, topic_config, subscribers[i].config),
                    state.0,
                ),
                state.1.update(i, true),
            )
        } else {
            state
        };
        fan_out(c, topic_config, input, sequence, properties, subscribers, i + 1, next)
    }
}

/// Changes, populated subscriptions, and the next sequence number.
pub type PublishState = (FanoutState, u64);

/// The messages from index `i` on are fanned out in order.
pub open spec fn publish_from(
    c: CommandView,
    topic_config: TopicConfig,
    inputs: Seq<InputView>,
    subscribers: Seq<Subscriber>,
    i: int,
    state: PublishState,
) -> Result<PublishState, ErrorView>
    decreases inputs.len() - i,
{
    if i >= inputs.len() {
        Ok(state)
    } else {
        match rule::canonical_view(inspected(inputs[i])) {
            Err(error) => Err(ErrorView::RuleConfig(error)),
            Ok(properties) => publish_from(
                c,
                topic_config,
                inputs,
                subscribers,
                i + 1,
                (
                    fan_out(
                        c,
                        topic_config,
                        inputs[i],
                        SequenceNumber(state.1),
                        properties,
                        subscribers,
                        0,
                        state.0,
                    ),
                    queue::bump(state.1),
                ),
            ),
        }
    }
}

/// The first `n` paths that are populated.
pub open spec fn populated_paths(paths: Seq<Seq<char>>, populated: Seq<bool>, n: int) -> Seq<
    Seq<char>,
>
    decreases n,
{
    if n <= 0 {
        Seq::empty()
    } else if populated[n - 1] {
        populated_paths(paths, populated, n - 1).push(paths[n - 1])
    } else {
        populated_paths(paths, populated, n - 1)
    }
}

/// The counters advance even with no subscriptions. A subscription created later
/// therefore cannot mistake a later message for history it was never entitled to
/// receive.
pub open spec fn publish_outcome(
    c: CommandView,
    inputs: Seq<InputView>,
    paths: Seq<Seq<char>>,
    counters: QueueCounters,
    state: PublishState,
) -> Step {
    Ok(
        (
            state.0.0.push(
                shared::put(
                    keys::queue_counters_key(c.namespace, c.entity),
                    codec::encoded::<QueueCounters>(
                        QueueCounters { next_sequence: state.1, ..counters },
                    ),
                ),
            ),
            OutcomeView::Published {
                sequences: send::numbers(counters.next_sequence, inputs.len()),
                subscriptions: populated_paths(paths, state.0.1, paths.len() as int),
            },
        ),
    )
}

/// What publishing to a topic does.
pub open spec fn publish_step(
    m: Contents,
    c: CommandView,
    inputs: Seq<InputView>,
    batch: Seq<OpView>,
) -> Step {
    if inputs.len() == 0 {
        Err(ErrorView::EmptyMessageBatch)
    } else {
        match topic_of(m, c) {
            Err(error) => Err(error),
            Ok(topic_config) => match topic_fault_from(topic_config, inputs, 0) {
                Some(error) => Err(error),
                None => match subscriptions_of(
                    m,
                    c.namespace,
                    c.entity,
                    (MAX_TOPIC_SUBSCRIPTIONS + 1) as usize,
                ) {
                    Err(error) => Err(error),
                    Ok(paths) => if paths.len() > MAX_TOPIC_SUBSCRIPTIONS {
                        Err(
                            ErrorView::SubscriptionLimitExceeded {
                                maximum: MAX_TOPIC_SUBSCRIPTIONS,
                            },
                        )
                    } else {
                        match subscribers_from(m, c.namespace, paths, 0, Seq::empty()) {
                            Err(error) => Err(error),
                            Ok(subscribers) => match machine::counters_of(m, c) {
                                Err(error) => Err(error),
                                Ok(counters) => match publish_from(
                                    c,
                                    topic_config,
                                    inputs,
                                    subscribers,
                                    0,
                                    (
                                        (batch, Seq::new(paths.len(), |i: int| false)),
                                        counters.next_sequence,
                                    ),
                                ) {
                                    Err(error) => Err(error),
                                    Ok(state) => publish_outcome(
                                        c,
                                        inputs,
                                        paths,
                                        counters,
                                        state,
                                    ),
                                },
                            },
                        }
                    },
                },
            },
        }
    }
}

/// Why publishing is refused before anything is staged: for the messages, the
/// topic, its subscriptions, the counters, or what rules look at in the first
/// message.
pub open spec fn publish_refusal(m: Contents, c: CommandView, inputs: Seq<InputView>) -> Option<
    ErrorView,
> {
    if inputs.len() == 0 {
        Some(ErrorView::EmptyMessageBatch)
    } else {
        match topic_of(m, c) {
            Err(error) => Some(error),
            Ok(topic_config) => match topic_fault_from(topic_config, inputs, 0) {
                Some(error) => Some(error),
                None => match subscriptions_of(
                    m,
                    c.namespace,
                    c.entity,
                    (MAX_TOPIC_SUBSCRIPTIONS + 1) as usize,
                ) {
                    Err(error) => Some(error),
                    Ok(paths) => if paths.len() > MAX_TOPIC_SUBSCRIPTIONS {
                        Some(
                            ErrorView::SubscriptionLimitExceeded {
                                maximum: MAX_TOPIC_SUBSCRIPTIONS,
                            },
                        )
                    } else {
                        match subscribers_from(m, c.namespace, paths, 0, Seq::empty()) {
                            Err(error) => Some(error),
                            Ok(_) => match machine::counters_of(m, c) {
                                Err(error) => Some(error),
                                Ok(_) => match rule::canonical_view(inspected(inputs[0])) {
                                    Err(error) => Some(ErrorView::RuleConfig(error)),
                                    Ok(_) => None,
                                },
                            },
                        }
                    },
                },
            },
        }
    }
}

/// A publication that is refused before anything is staged is answered with that
/// refusal.
pub proof fn publish_refusals_are_answered(
    m: Contents,
    c: CommandView,
    inputs: Seq<InputView>,
    batch: Seq<OpView>,
)
    requires
        publish_refusal(m, c, inputs) is Some,
    ensures
        publish_step(m, c, inputs, batch) == Err::<(Seq<OpView>, OutcomeView), ErrorView>(
            publish_refusal(m, c, inputs)->Some_0,
        ),
{
}

// ---- how it is done --------------------------------------------------------

fn validate_topic_input(config: &TopicConfig, input: &SendInput<'_>) -> (valid: Result<
    (),
    BrokerError,
>)
    ensures
        match valid {
            Ok(_) => topic_input_fault(*config, input.deep_view()) is None,
            Err(error) => topic_input_fault(*config, input.deep_view()) == Some(
                error.deep_view(),
            ) && !(error is Storage),
        },
{
    if input.scheduled_enqueue_at.is_some() {
        return Err(BrokerError::TopicSchedulingNotSupported);
    }
    if input.session_id.is_some() {
        return Err(BrokerError::TopicSessionNotSupported);
    }
    let characters: usize = input.message_id.unicode_len();
    if characters > MAX_MESSAGE_ID_CHARACTERS {
        return Err(
            BrokerError::MessageIdTooLong { characters, maximum: MAX_MESSAGE_ID_CHARACTERS },
        );
    }
    let message_bytes: usize = input.bytes();
    if message_bytes > config.max_message_bytes {
        return Err(
            BrokerError::MessageTooLarge {
                body_bytes: message_bytes,
                maximum_bytes: config.max_message_bytes,
            },
        );
    }
    Ok(())
}

#[verifier::loop_isolation(false)]
fn validate_topic_inputs(config: &TopicConfig, inputs: &[SendInput<'_>]) -> (valid: Result<
    (),
    BrokerError,
>)
    ensures
        match valid {
            Ok(_) => topic_fault_from(*config, duplicate::inputs_view(inputs@), 0) is None,
            Err(error) => topic_fault_from(*config, duplicate::inputs_view(inputs@), 0) == Some(
                error.deep_view(),
            ) && !(error is Storage),
        },
{
    let ghost v = duplicate::inputs_view(inputs@);
    let mut i: usize = 0;
    while i < inputs.len()
        invariant
            i <= inputs@.len(),
            topic_fault_from(*config, v, i as int) == topic_fault_from(*config, v, 0),
        decreases inputs@.len() - i,
    {
        assert(v[i as int] == inputs@[i as int].deep_view());
        validate_topic_input(config, &inputs[i])?;
        i = i + 1;
    }
    Ok(())
}

fn filter_properties(input: &SendInput<'_>) -> (properties: Result<FilterProperties, BrokerError>)
    ensures
        match properties {
            Ok(properties) => rule::canonical_view(inspected(input.deep_view())) == Ok::<
                PropertiesView,
                rule::RuleConfigError,
            >(properties.deep_view()),
            Err(error) => match error {
                BrokerError::RuleConfig(error) => rule::canonical_view(
                    inspected(input.deep_view()),
                ) == Err::<PropertiesView, rule::RuleConfigError>(error),
                _ => false,
            },
        },
{
    let mut properties = match input.envelope {
        Some(envelope) => envelope.filter_properties().clone(),
        None => FilterProperties::default(),
    };
    if !input.message_id.is_empty() {
        properties.message_id = Some(input.message_id.to_owned());
    }
    if let Some(session_id) = input.session_id {
        properties.session_id = Some(session_id.as_str().to_owned());
    }
    match properties.canonicalized() {
        Ok(properties) => Ok(properties),
        Err(error) => Err(BrokerError::RuleConfig(error)),
    }
}

fn matches_any(rules: &Vec<RuleDefinition>, properties: &FilterProperties) -> (matches: bool)
    ensures
        matches == any_selects(rules.deep_view(), properties.deep_view()),
{
    let ghost v = rules.deep_view();
    let mut i: usize = 0;
    while i < rules.len()
        invariant
            i <= rules@.len(),
            v == rules.deep_view(),
            forall|j: int|
                0 <= j < i ==> !rule::selects((#[trigger] v[j]).filter, properties.deep_view()),
        decreases rules@.len() - i,
    {
        assert(v[i as int] == rules@[i as int].deep_view());
        if rules[i].filter.matches(properties) {
            return true;
        }
        i = i + 1;
    }
    false
}

/// A subscription with its queue and rules.
struct SubscriberState {
    path: EntityPath,
    config: QueueConfig,
    rules: Vec<RuleDefinition>,
}

impl DeepView for SubscriberState {
    type V = Subscriber;

    closed spec fn deep_view(&self) -> Subscriber {
        Subscriber {
            path: self.path.deep_view(),
            config: self.config,
            rules: self.rules.deep_view(),
        }
    }
}

/// Stores one subscription's copy of a message.
fn store_copy(
    command: &Command,
    path: &EntityPath,
    record: &MessageRecord,
    batch: &mut WriteBatch,
)
    ensures
        final(batch).deep_view() == copy_changes(
            command.deep_view(),
            path.deep_view(),
            record.deep_view(),
            old(batch).deep_view(),
        ),
{
    let namespace = &command.namespace;
    batch.push_put(keys::message(namespace, path, record.sequence), codec::store(record));
    batch.push_put(keys::ready(namespace, path, record.sequence), shared::no_value());
    if let Some(at) = record.expires_at {
        batch.push_put(keys::expiry(namespace, path, at, record.sequence), shared::no_value());
    }
}

/// Hands every selecting subscription its copy of one message.
#[verifier::loop_isolation(false)]
fn fan_out_message(
    command: &Command,
    topic_config: &TopicConfig,
    input: &SendInput<'_>,
    sequence: SequenceNumber,
    properties: &FilterProperties,
    subscribers: &Vec<SubscriberState>,
    batch: &mut WriteBatch,
    populated: &mut Vec<bool>,
)
    requires
        old(populated)@.len() == subscribers@.len(),
    ensures
        final(populated)@.len() == subscribers@.len(),
        fan_out(
            command.deep_view(),
            *topic_config,
            input.deep_view(),
            sequence,
            properties.deep_view(),
            subscribers.deep_view(),
            0,
            (old(batch).deep_view(), old(populated)@),
        ) == (final(batch).deep_view(), final(populated)@),
{
    let ghost c = command.deep_view();
    let ghost v = subscribers.deep_view();
    let ghost whole = fan_out(
        c,
        *topic_config,
        input.deep_view(),
        sequence,
        properties.deep_view(),
        v,
        0,
        (batch.deep_view(), populated@),
    );
    let topic_lifetime = send::effective_time_to_live(
        input.time_to_live_millis,
        topic_config.default_time_to_live_millis,
    );
    let mut i: usize = 0;
    while i < subscribers.len()
        invariant
            i <= subscribers@.len(),
            populated@.len() == subscribers@.len(),
            fan_out(
                c,
                *topic_config,
                input.deep_view(),
                sequence,
                properties.deep_view(),
                v,
                i as int,
                (batch.deep_view(), populated@),
            ) == whole,
        decreases subscribers@.len() - i,
    {
        assert(v[i as int] == subscribers@[i as int].deep_view());
        let subscriber = &subscribers[i];
        if matches_any(&subscriber.rules, properties) {
            let lifetime = send::effective_time_to_live(
                topic_lifetime,
                subscriber.config.default_time_to_live_millis,
            );
            let record = send::message_record(command, input, sequence, lifetime);
            store_copy(command, &subscriber.path, &record, batch);
            populated.set(i, true);
        }
        i = i + 1;
    }
}

/// The paths that are populated.
#[verifier::loop_isolation(false)]
fn keep_populated(paths: &Vec<EntityPath>, populated: &Vec<bool>) -> (kept: Vec<EntityPath>)
    requires
        populated@.len() == paths@.len(),
    ensures
        kept.deep_view() == populated_paths(
            paths.deep_view(),
            populated@,
            paths@.len() as int,
        ),
{
    let ghost v = paths.deep_view();
    let mut kept: Vec<EntityPath> = Vec::new();
    let mut i: usize = 0;
    proof {
        assert(kept.deep_view() =~= Seq::<Seq<char>>::empty());
    }
    while i < paths.len()
        invariant
            i <= paths@.len(),
            kept.deep_view() == populated_paths(v, populated@, i as int),
        decreases paths@.len() - i,
    {
        if populated[i] {
            let ghost before = kept.deep_view();
            let path = paths[i].clone();
            kept.push(path);
            proof {
                assert(kept.deep_view() =~= before.push(v[i as int]));
            }
        }
        i = i + 1;
    }
    kept
}

impl<S: StateStore> StateMachine<S> {
    pub fn topic_config(&self, namespace: &NamespaceName, topic: &EntityPath) -> (config: Result<
        Option<TopicConfig>,
        BrokerError,
    >)
        ensures
            error::agrees(
                self.reliable(),
                config,
                topic_at(self.contents(), namespace.deep_view(), topic.deep_view()),
            ),
    {
        self.read(keys::topic_config(namespace, topic).as_slice())
    }

    /// Durable subscriptions below `topic`, ordered by validated name.
    pub fn subscriptions(&self, namespace: &NamespaceName, topic: &EntityPath, limit: usize) -> (
    paths: Result<Vec<EntityPath>, BrokerError>)
        ensures
            error::agrees(
                self.reliable(),
                paths,
                subscriptions_of(
                    self.contents(),
                    namespace.deep_view(),
                    topic.deep_view(),
                    limit,
                ),
            ),
    {
        self.read_below(keys::topic_subscription_prefix(namespace, topic).as_slice(), limit)
    }

    fn load_topic_config(&self, command: &Command) -> (config: Result<TopicConfig, BrokerError>)
        ensures
            error::agrees(
                self.reliable(),
                config,
                topic_of(self.contents(), command.deep_view()),
            ),
    {
        match self.topic_config(&command.namespace, &command.entity)? {
            Some(config) => Ok(config),
            None => Err(BrokerError::TopicNotFound),
        }
    }

    pub(crate) fn create_topic(
        &self,
        command: &Command,
        config: TopicConfig,
        batch: &mut WriteBatch,
    ) -> (outcome: Result<CommandOutcome, BrokerError>)
        ensures
            machine::stepped(
                self.reliable(),
                outcome,
                final(batch).deep_view(),
                create_topic_step(
                    self.contents(),
                    command.deep_view(),
                    config,
                    old(batch).deep_view(),
                ),
            ),
    {
        if command.entity.is_dead_letter_queue() || command.entity.is_subscription()
            || command.entity.is_management() {
            return Err(BrokerError::EntityPathReserved);
        }
        let key = keys::topic_config(&command.namespace, &command.entity);
        if self.lookup(key.as_slice())?.is_some() {
            return Err(BrokerError::TopicAlreadyExists);
        }
        let queue_key = keys::queue_config(&command.namespace, &command.entity);
        if self.lookup(queue_key.as_slice())?.is_some() {
            return Err(BrokerError::EntityAlreadyExists);
        }
        let config = match config.validate() {
            Ok(config) => config,
            Err(error) => return Err(BrokerError::TopicConfig(error)),
        };
        batch.push_put(key, codec::store(&config));
        Ok(CommandOutcome::TopicCreated)
    }

    pub(crate) fn create_subscription(
        &self,
        command: &Command,
        name: &SubscriptionName,
        config: SubscriptionConfig,
        batch: &mut WriteBatch,
    ) -> (outcome: Result<CommandOutcome, BrokerError>)
        ensures
            machine::stepped(
                self.reliable(),
                outcome,
                final(batch).deep_view(),
                create_subscription_step(
                    self.contents(),
                    command.deep_view(),
                    name.deep_view(),
                    config,
                    old(batch).deep_view(),
                ),
            ),
    {
        let namespace = &command.namespace;
        let topic_config = self.load_topic_config(command)?;
        let index_key = keys::topic_subscription(namespace, &command.entity, name);
        if self.lookup(index_key.as_slice())?.is_some() {
            return Err(BrokerError::SubscriptionAlreadyExists);
        }
        let subscriptions = self.subscriptions(
            namespace,
            &command.entity,
            MAX_TOPIC_SUBSCRIPTIONS + 1,
        )?;
        if subscriptions.len() >= MAX_TOPIC_SUBSCRIPTIONS {
            return Err(
                BrokerError::SubscriptionLimitExceeded { maximum: MAX_TOPIC_SUBSCRIPTIONS },
            );
        }
        let entity = match command.entity.subscription(name) {
            Ok(entity) => entity,
            Err(error) => return Err(BrokerError::Identifier(error)),
        };
        let queue_key = keys::queue_config(namespace, &entity);
        if self.lookup(queue_key.as_slice())?.is_some() {
            return Err(BrokerError::EntityAlreadyExists);
        }
        let topic_key = keys::topic_config(namespace, &entity);
        if self.lookup(topic_key.as_slice())?.is_some() {
            return Err(BrokerError::EntityAlreadyExists);
        }
        // Validate the DLQ path now so a valid subscription can never discover
        // that its shadow is unaddressable only when the first message fails.
        let dead_letter_queue = Self::shadow(&entity)?;
        let config = match config.validate() {
            Ok(config) => config,
            Err(error) => return Err(BrokerError::SubscriptionConfig(error)),
        };
        let config = match config.queue_config(topic_config).validate() {
            Ok(config) => config,
            Err(error) => return Err(BrokerError::QueueConfig(error)),
        };
        let mut shadow = config;
        shadow.max_delivery_count = u32::MAX;
        shadow.default_time_to_live_millis = None;
        shadow.requires_session = false;
        shadow.requires_duplicate_detection = false;
        batch.push_put(index_key, codec::store(&entity));
        batch.push_put(queue_key, codec::store(&config));
        batch.push_put(
            keys::queue_config(namespace, &dead_letter_queue),
            codec::store(&shadow),
        );
        let definition = RuleDefinition::default_at(command.issued_at);
        batch.push_put(
            keys::subscription_rule(namespace, &entity, &definition.name),
            codec::store(&definition),
        );
        Ok(CommandOutcome::SubscriptionCreated { entity })
    }

    /// Whether a path is that of a subscription.
    pub(crate) fn is_subscription(&self, namespace: &NamespaceName, path: &EntityPath) -> (yes:
        Result<bool, BrokerError>)
        ensures
            match yes {
                Ok(yes) => yes == is_subscription(
                    self.contents(),
                    namespace.deep_view(),
                    path.deep_view(),
                ),
                Err(error) => error is Storage && !self.reliable(),
            },
    {
        let ghost m = self.contents();
        let ghost ns = namespace.deep_view();
        let ghost whole = path.deep_view();
        match path.subscription_parts() {
            Some((topic, name)) => {
                let key = keys::subscription_below(namespace, topic, &name);
                let found = self.lookup(key.as_slice())?.is_some();
                proof {
                    if found {
                        assert(is_subscription_of(m, ns, topic@, whole));
                    } else if is_subscription(m, ns, whole) {
                        let other = choose|other: Seq<char>|
                            is_subscription_of(m, ns, other, whole);
                        let called = choose|called: Seq<char>|
                            #![trigger identifier::subscription_path(other, called)]
                            {
                                &&& identifier::name_fault(
                                    "subscription name",
                                    called,
                                    identifier::MAX_SUBSCRIPTION_NAME_CHARACTERS,
                                ) is None
                                &&& whole == identifier::subscription_path(other, called)
                                &&& m.dom().contains(
                                    keys::topic_subscription_key(ns, other, called),
                                )
                            };
                        identifier::subscriptions_share_no_path(
                            topic@,
                            name.deep_view(),
                            other,
                            called,
                        );
                    }
                }
                Ok(found)
            },
            None => Ok(false),
        }
    }

    fn subscriber(&self, namespace: &NamespaceName, path: &EntityPath) -> (state: Result<
        SubscriberState,
        BrokerError,
    >)
        ensures
            error::agrees(
                self.reliable(),
                state,
                subscriber(self.contents(), namespace.deep_view(), path.deep_view()),
            ),
    {
        let config = match self.queue_config(namespace, path)? {
            Some(config) => config,
            None => return Err(BrokerError::DanglingSubscription { entity: path.clone() }),
        };
        let rules = self.all_rules(namespace, path)?;
        Ok(SubscriberState { path: path.clone(), config, rules })
    }

    #[verifier::loop_isolation(false)]
    fn subscribers(&self, namespace: &NamespaceName, paths: &Vec<EntityPath>) -> (states: Result<
        Vec<SubscriberState>,
        BrokerError,
    >)
        ensures
            error::agrees(
                self.reliable(),
                states,
                subscribers_from(
                    self.contents(),
                    namespace.deep_view(),
                    paths.deep_view(),
                    0,
                    Seq::empty(),
                ),
            ),
            states is Ok ==> states->Ok_0@.len() == paths@.len(),
    {
        let ghost m = self.contents();
        let ghost v = paths.deep_view();
        let ghost whole = subscribers_from(m, namespace.deep_view(), v, 0, Seq::empty());
        let mut states: Vec<SubscriberState> = Vec::new();
        let mut i: usize = 0;
        proof {
            assert(states.deep_view() =~= Seq::<Subscriber>::empty());
        }
        while i < paths.len()
            invariant
                i <= paths@.len(),
                states@.len() == i,
                subscribers_from(m, namespace.deep_view(), v, i as int, states.deep_view())
                    == whole,
            decreases paths@.len() - i,
        {
            assert(v[i as int] == paths@[i as int].deep_view());
            let state = self.subscriber(namespace, &paths[i])?;
            let ghost before = states.deep_view();
            let ghost found = state.deep_view();
            states.push(state);
            proof {
                assert(states.deep_view() =~= before.push(found));
            }
            i = i + 1;
        }
        Ok(states)
    }

    #[verifier::loop_isolation(false)]
    pub(crate) fn publish(
        &self,
        command: &Command,
        inputs: &[SendInput<'_>],
        batch: &mut WriteBatch,
    ) -> (outcome: Result<CommandOutcome, BrokerError>)
        ensures
            machine::stepped(
                self.reliable(),
                outcome,
                final(batch).deep_view(),
                publish_step(
                    self.contents(),
                    command.deep_view(),
                    duplicate::inputs_view(inputs@),
                    old(batch).deep_view(),
                ),
            ),
            outcome is Err && (outcome->Err_0 is Storage || publish_refusal(
                self.contents(),
                command.deep_view(),
                duplicate::inputs_view(inputs@),
            ) is Some) ==> final(batch).deep_view() == old(batch).deep_view(),
    {
        if inputs.len() == 0 {
            return Err(BrokerError::EmptyMessageBatch);
        }
        let topic_config = self.load_topic_config(command)?;
        validate_topic_inputs(&topic_config, inputs)?;
        let paths = self.subscriptions(
            &command.namespace,
            &command.entity,
            MAX_TOPIC_SUBSCRIPTIONS + 1,
        )?;
        if paths.len() > MAX_TOPIC_SUBSCRIPTIONS {
            return Err(
                BrokerError::SubscriptionLimitExceeded { maximum: MAX_TOPIC_SUBSCRIPTIONS },
            );
        }
        let subscribers = self.subscribers(&command.namespace, &paths)?;
        let mut counters = self.load_counters(command)?;
        let mut populated: Vec<bool> = Vec::new();
        let mut k: usize = 0;
        while k < paths.len()
            invariant
                k <= paths@.len(),
                populated@ =~= Seq::new(k as nat, |i: int| false),
            decreases paths@.len() - k,
        {
            populated.push(false);
            k = k + 1;
        }
        let ghost c = command.deep_view();
        let ghost v = duplicate::inputs_view(inputs@);
        let ghost kept = counters;
        let ghost whole = publish_from(
            c,
            topic_config,
            v,
            subscribers.deep_view(),
            0,
            ((batch.deep_view(), populated@), counters.next_sequence),
        );
        proof {
            assert(populated@ =~= Seq::new(paths.deep_view().len(), |i: int| false));
        }
        let mut sequences: Vec<SequenceNumber> = Vec::new();
        let mut i: usize = 0;
        proof {
            assert(sequences@ + send::numbers(counters.next_sequence, v.len()) =~= send::numbers(
                counters.next_sequence,
                v.len(),
            ));
        }
        while i < inputs.len()
            invariant
                i <= inputs@.len(),
                populated@.len() == subscribers@.len(),
                counters.next_lock_token == kept.next_lock_token,
                sequences@ + send::numbers(counters.next_sequence, (v.len() - i) as nat)
                    == send::numbers(kept.next_sequence, v.len()),
                publish_from(
                    c,
                    topic_config,
                    v,
                    subscribers.deep_view(),
                    i as int,
                    ((batch.deep_view(), populated@), counters.next_sequence),
                ) == whole,
                i == 0 ==> batch.deep_view() == old(batch).deep_view(),
                i > 0 ==> rule::canonical_view(inspected(v[0])) is Ok,
            decreases inputs@.len() - i,
        {
            assert(v[i as int] == inputs@[i as int].deep_view());
            let sequence = SequenceNumber::new(counters.next_sequence);
            let ghost rest = send::numbers(
                queue::bump(counters.next_sequence),
                (v.len() - i - 1) as nat,
            );
            let ghost before = sequences@;
            counters.next_sequence = counters.next_sequence.saturating_add(1);
            sequences.push(sequence);
            let properties = filter_properties(&inputs[i])?;
            fan_out_message(
                command,
                &topic_config,
                &inputs[i],
                sequence,
                &properties,
                &subscribers,
                batch,
                &mut populated,
            );
            proof {
                assert(before.push(sequence) + rest =~= before + (seq![sequence] + rest));
            }
            i = i + 1;
        }
        proof {
            assert(sequences@ + send::numbers(counters.next_sequence, 0) =~= sequences@);
        }
        // Topic sequences advance even with no subscriptions. A subscription
        // created later therefore cannot mistake a later message for history it
        // was never entitled to receive.
        batch.push_put(
            keys::queue_counters(&command.namespace, &command.entity),
            codec::store(&counters),
        );
        let subscriptions = keep_populated(&paths, &populated);
        Ok(CommandOutcome::Published { sequences, subscriptions })
    }
}

} // verus!
