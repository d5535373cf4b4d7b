//! What whoever creates queues, topics, subscriptions and rules is promised: they are as
//! they were asked for, or refused for a reason.

use vstd::prelude::*;

use crate::domain::codec;
use crate::domain::command::{CommandView, KindView, OutcomeView};
use crate::domain::error::ErrorView;
use crate::domain::identifier;
use crate::domain::identifier::EntityPath;
use crate::domain::keys;
use crate::domain::machine;
use crate::domain::machine::apply;
use crate::domain::machine::catalog;
use crate::domain::machine::history;
use crate::domain::machine::lifecycle;
use crate::domain::machine::orderly;
use crate::domain::machine::publishing;
use crate::domain::machine::receiving;
use crate::domain::machine::rules;
use crate::domain::machine::sending;
use crate::domain::machine::topic;
use crate::domain::queue::{QueueConfig, QueueConfigError};
use crate::domain::rule;
use crate::domain::rule::{RuleDefinition, RuleDefinitionView, RuleFilterView};
use crate::domain::topic::{
    SubscriptionConfig, SubscriptionConfigError, TopicConfig, TopicConfigError,
};
use crate::domain::wire::Wire;
use crate::storage;
use crate::storage::Contents;

verus! {

// ---- queues ----------------------------------------------------------------

/// Whether a queue may have these settings: a lock of up to five minutes, a delivery, a
/// byte and a life at least, and a memory between twenty seconds and a week.
pub open spec fn is_fit_for_a_queue(config: QueueConfig) -> bool {
    &&& 1 <= config.lock_duration_millis <= 300_000
    &&& config.max_delivery_count >= 1
    &&& config.max_message_bytes >= 1
    &&& config.default_time_to_live_millis matches Some(millis) ==> millis >= 1
    &&& 20_000 <= config.duplicate_detection_history_millis <= 604_800_000
}

/// The settings that are stored under a path.
pub open spec fn settings_at(m: Contents, c: CommandView, path: Seq<char>) -> Option<QueueConfig> {
    match machine::value_at::<QueueConfig>(m, keys::queue_config_key(c.namespace, path)) {
        Ok(found) => found,
        Err(_) => None,
    }
}

/// Whether settings are those of the dead-letter queue of a queue: nothing ends there,
/// neither by its life nor by its deliveries, and there are no sessions.
pub open spec fn is_for_the_dead_of(dead: QueueConfig, config: QueueConfig) -> bool {
    &&& dead.lock_duration_millis == config.lock_duration_millis
    &&& dead.max_delivery_count == 0xffff_ffff
    &&& dead.default_time_to_live_millis is None
    &&& dead.max_message_bytes == config.max_message_bytes
    &&& !dead.requires_session
    &&& dead.duplicate_detection_history_millis == config.duplicate_detection_history_millis
}

/// Whether nothing is stored under the path that a command names.
pub open spec fn is_vacant(m: Contents, c: CommandView, path: Seq<char>) -> bool {
    &&& !m.dom().contains(keys::queue_config_key(c.namespace, path))
    &&& !m.dom().contains(keys::topic_config_key(c.namespace, path))
}

/// A queue with fit settings under a vacant path is created as it was asked for, with a
/// queue for its dead letters beside it.
pub proof fn fit_queues_are_created(m: Contents, c: CommandView, config: QueueConfig)
    requires
        c.kind == (KindView::CreateQueue { config }),
        machine::applied_time(m) matches Ok(time) && time.0 <= c.issued_at.0,
        !identifier::names_dead_letter_queue(c.entity),
        is_vacant(m, c, c.entity),
        is_fit_for_a_queue(config),
        machine::shadow_of(c.entity) is Ok,
    ensures
        ({
            let after = apply::applied(m, c).1;
            let grave = c.entity + "/$deadletterqueue"@;
            &&& apply::applied(m, c).0 == Ok::<OutcomeView, ErrorView>(OutcomeView::QueueCreated)
            &&& settings_at(after, c, c.entity) == Some(config)
            &&& settings_at(after, c, grave) matches Some(dead)
            &&& is_for_the_dead_of(dead, config)
            &&& dead.requires_duplicate_detection == config.requires_duplicate_detection
        }),
{
    receiving::graves_have_their_path(c.entity);
    lifecycle::queues_are_created_once(m, c, c);
}

/// A queue is refused under the path of a dead-letter queue, of another queue or of a
/// topic, and with settings that are not fit, each of which is told.
pub proof fn other_queues_are_refused(m: Contents, c: CommandView, config: QueueConfig)
    requires
        c.kind == (KindView::CreateQueue { config }),
        machine::applied_time(m) matches Ok(time) && time.0 <= c.issued_at.0,
    ensures
        ({
            let refused = |error: ErrorView|
                apply::applied(m, c) == (Err::<OutcomeView, ErrorView>(error), m);
            let unfit = |error: QueueConfigError| refused(ErrorView::QueueConfig(error));
            if identifier::names_dead_letter_queue(c.entity) {
                refused(ErrorView::DeadLetterQueueIsReserved)
            } else if m.dom().contains(keys::queue_config_key(c.namespace, c.entity)) {
                refused(ErrorView::QueueAlreadyExists)
            } else if m.dom().contains(keys::topic_config_key(c.namespace, c.entity)) {
                refused(ErrorView::EntityAlreadyExists)
            } else if config.lock_duration_millis == 0 {
                unfit(QueueConfigError::LockDurationTooShort)
            } else if config.lock_duration_millis > 300_000 {
                unfit(QueueConfigError::LockDurationTooLong { maximum_millis: 300_000 })
            } else if config.max_delivery_count == 0 {
                unfit(QueueConfigError::MaxDeliveryCountTooSmall)
            } else if config.max_message_bytes == 0 {
                unfit(QueueConfigError::MaxMessageBytesTooSmall)
            } else if config.default_time_to_live_millis == Some(0u64) {
                unfit(QueueConfigError::TimeToLiveTooShort)
            } else if config.duplicate_detection_history_millis < 20_000 {
                unfit(
                    QueueConfigError::DuplicateDetectionHistoryTooShort { minimum_millis: 20_000 },
                )
            } else if config.duplicate_detection_history_millis > 604_800_000 {
                unfit(
                    QueueConfigError::DuplicateDetectionHistoryTooLong {
                        maximum_millis: 604_800_000,
                    },
                )
            } else {
                is_fit_for_a_queue(config)
            }
        }),
{
}

// ---- topics ----------------------------------------------------------------

/// Whether a path is kept for dead letters, subscriptions or management.
pub open spec fn is_reserved(path: Seq<char>) -> bool {
    identifier::names_dead_letter_queue(path) || identifier::names_subscription(path)
        || identifier::names_management(path)
}

/// A topic whose messages may have a byte and live at all is created as it was asked for,
/// under a path that is vacant and not reserved.
pub proof fn fit_topics_are_created(m: Contents, c: CommandView, config: TopicConfig)
    requires
        c.kind == (KindView::CreateTopic { config }),
        machine::applied_time(m) matches Ok(time) && time.0 <= c.issued_at.0,
        !is_reserved(c.entity),
        is_vacant(m, c, c.entity),
        config.max_message_bytes >= 1,
        config.default_time_to_live_millis != Some(0u64),
    ensures
        apply::applied(m, c).0 == Ok::<OutcomeView, ErrorView>(OutcomeView::TopicCreated),
        machine::value_at::<TopicConfig>(
            apply::applied(m, c).1,
            keys::topic_config_key(c.namespace, c.entity),
        ) == Ok::<Option<TopicConfig>, ErrorView>(Some(config)),
{
    broadcast use history::one_more_change;

    lifecycle::keys_begin_with_their_tags();
    codec::stored_values_read_back::<TopicConfig>(config);
}

/// Any other topic is refused, for its path or for its settings.
pub proof fn other_topics_are_refused(m: Contents, c: CommandView, config: TopicConfig)
    requires
        c.kind == (KindView::CreateTopic { config }),
        machine::applied_time(m) matches Ok(time) && time.0 <= c.issued_at.0,
    ensures
        ({
            let refused = |error: ErrorView|
                apply::applied(m, c) == (Err::<OutcomeView, ErrorView>(error), m);
            if is_reserved(c.entity) {
                refused(ErrorView::EntityPathReserved)
            } else if m.dom().contains(keys::topic_config_key(c.namespace, c.entity)) {
                refused(ErrorView::TopicAlreadyExists)
            } else if m.dom().contains(keys::queue_config_key(c.namespace, c.entity)) {
                refused(ErrorView::EntityAlreadyExists)
            } else if config.default_time_to_live_millis == Some(0u64) {
                refused(ErrorView::TopicConfig(TopicConfigError::TimeToLiveTooShort))
            } else if config.max_message_bytes == 0 {
                refused(ErrorView::TopicConfig(TopicConfigError::MaxMessageBytesTooSmall))
            } else {
                true
            }
        }),
{
}

// ---- subscriptions ---------------------------------------------------------

/// The path of a subscription below the topic that a command names.
pub open spec fn path_below(c: CommandView, name: Seq<char>) -> Seq<char> {
    c.entity + "/subscriptions/"@ + name
}

/// Whether a topic has room for a subscription of a name.
pub open spec fn has_room_for(m: Contents, c: CommandView, name: Seq<char>) -> bool {
    &&& machine::value_at::<TopicConfig>(
        m,
        keys::topic_config_key(c.namespace, c.entity),
    ) matches Ok(Some(_))
    &&& !m.dom().contains(keys::topic_subscription_key(c.namespace, c.entity, name))
    &&& topic::subscriptions_of(m, c.namespace, c.entity, 2_001) matches Ok(others)
    &&& others.len() < 2_000
    &&& is_vacant(m, c, path_below(c, name))
}

/// Whether a subscription may have these settings.
pub open spec fn is_fit_for_a_subscription(config: SubscriptionConfig) -> bool {
    &&& 1 <= config.lock_duration_millis <= 300_000
    &&& config.max_delivery_count >= 1
    &&& config.default_time_to_live_millis != Some(0u64)
}

/// A subscription is created with a queue that has the settings it was asked for and the
/// message limit of its topic, with a queue for dead letters, and with one rule that
/// selects every message.
pub proof fn fit_subscriptions_are_created(
    m: Contents,
    c: CommandView,
    name: Seq<char>,
    config: SubscriptionConfig,
    given: TopicConfig,
)
    requires
        c.kind == (KindView::CreateSubscription { name, config }),
        machine::applied_time(m) matches Ok(time) && time.0 <= c.issued_at.0,
        has_room_for(m, c, name),
        machine::value_at::<TopicConfig>(m, keys::topic_config_key(c.namespace, c.entity)) == Ok::<
            Option<TopicConfig>,
            ErrorView,
        >(Some(given)),
        given.max_message_bytes >= 1,
        is_fit_for_a_subscription(config),
        identifier::internal_path(path_below(c, name)) is Ok,
        machine::shadow_of(path_below(c, name)) is Ok,
        <String as Wire>::fits(path_below(c, name)),
    ensures
        ({
            let path = path_below(c, name);
            let grave = path + "/$deadletterqueue"@;
            let after = apply::applied(m, c).1;
            &&& apply::applied(m, c).0 == Ok::<OutcomeView, ErrorView>(
                OutcomeView::SubscriptionCreated { entity: path },
            )
            &&& machine::value_at::<EntityPath>(
                after,
                keys::topic_subscription_key(c.namespace, c.entity, name),
            ) == Ok::<Option<Seq<char>>, ErrorView>(Some(path))
            &&& settings_at(after, c, path) matches Some(queue)
            &&& queue.lock_duration_millis == config.lock_duration_millis
            &&& queue.max_delivery_count == config.max_delivery_count
            &&& queue.default_time_to_live_millis == config.default_time_to_live_millis
            &&& queue.max_message_bytes == given.max_message_bytes
            &&& !queue.requires_session
            &&& !queue.requires_duplicate_detection
            &&& queue.duplicate_detection_history_millis == 600_000
            &&& settings_at(after, c, grave) matches Some(dead)
            &&& is_for_the_dead_of(dead, queue)
            &&& !dead.requires_duplicate_detection
            &&& machine::value_at::<RuleDefinition>(
                after,
                keys::subscription_rule_key(c.namespace, path, "$default"@),
            ) == Ok::<Option<RuleDefinitionView>, ErrorView>(
                Some(
                    RuleDefinitionView {
                        name: "$default"@,
                        filter: RuleFilterView::True,
                        created_at: c.issued_at,
                    },
                ),
            )
        }),
{
    broadcast use history::one_more_change;

    lifecycle::keys_begin_with_their_tags();
    let path = path_below(c, name);
    let grave = path + "/$deadletterqueue"@;
    receiving::graves_have_their_path(path);
    assert(machine::shadow_of(path) == Ok::<Seq<char>, ErrorView>(grave));
    let queue = crate::domain::topic::subscription_queue(config, given);
    let dead = topic::subscription_shadow(queue);
    if keys::queue_config_key(c.namespace, path) == keys::queue_config_key(c.namespace, grave) {
        lifecycle::paths_have_their_own_scopes(keys::TAG_QUEUE_CONFIG, c.namespace, path, grave);
    }
    codec::stored_values_read_back::<QueueConfig>(queue);
    codec::stored_values_read_back::<QueueConfig>(dead);
    codec::stored_values_read_back::<EntityPath>(path);
    orderly::descriptions_fit();
    codec::stored_values_read_back::<RuleDefinition>(rule::default_rule(c.issued_at));
    let listed = keys::topic_subscription_key(c.namespace, c.entity, name);
    let ruled = keys::subscription_rule_key(c.namespace, path, "$default"@);
    assert(listed[0] == keys::TAG_TOPIC_SUBSCRIPTION);
    assert(ruled[0] == keys::TAG_SUBSCRIPTION_RULE);
}

/// Any other subscription is refused, for its topic, its name or its settings.
pub proof fn other_subscriptions_are_refused(
    m: Contents,
    c: CommandView,
    name: Seq<char>,
    config: SubscriptionConfig,
)
    requires
        c.kind == (KindView::CreateSubscription { name, config }),
        machine::applied_time(m) matches Ok(time) && time.0 <= c.issued_at.0,
    ensures
        ({
            let refused = |error: ErrorView|
                apply::applied(m, c) == (Err::<OutcomeView, ErrorView>(error), m);
            let unfit = |error: SubscriptionConfigError|
                refused(ErrorView::SubscriptionConfig(error));
            let found = machine::value_at::<TopicConfig>(
                m,
                keys::topic_config_key(c.namespace, c.entity),
            );
            let room = has_room_for(m, c, name) && identifier::internal_path(
                path_below(c, name),
            ) is Ok && machine::shadow_of(path_below(c, name)) is Ok;
            &&& found == Ok::<Option<TopicConfig>, ErrorView>(None) ==> refused(
                ErrorView::TopicNotFound,
            )
            &&& found matches Ok(Some(_)) ==> m.dom().contains(
                keys::topic_subscription_key(c.namespace, c.entity, name),
            ) ==> refused(ErrorView::SubscriptionAlreadyExists)
            &&& found matches Ok(Some(_)) ==> !m.dom().contains(
                keys::topic_subscription_key(c.namespace, c.entity, name),
            ) ==> (topic::subscriptions_of(m, c.namespace, c.entity, 2_001) matches Ok(others)
                ==> others.len() >= 2_000 ==> refused(
                ErrorView::SubscriptionLimitExceeded { maximum: 2_000 },
            ))
            &&& room ==> {
                &&& config.lock_duration_millis == 0 ==> unfit(
                    SubscriptionConfigError::LockDurationTooShort,
                )
                &&& config.lock_duration_millis > 300_000 ==> unfit(
                    SubscriptionConfigError::LockDurationTooLong { maximum_millis: 300_000 },
                )
                &&& 1 <= config.lock_duration_millis <= 300_000 && config.max_delivery_count == 0
                    ==> unfit(SubscriptionConfigError::MaxDeliveryCountTooSmall)
                &&& 1 <= config.lock_duration_millis <= 300_000 && config.max_delivery_count >= 1
                    && config.default_time_to_live_millis == Some(0u64) ==> unfit(
                    SubscriptionConfigError::TimeToLiveTooShort,
                )
            }
        }),
{
}

// ---- rules -----------------------------------------------------------------

/// Whether a command names a subscription that exists.
pub open spec fn names_a_subscription(m: Contents, c: CommandView) -> bool {
    &&& !identifier::names_dead_letter_queue(c.entity)
    &&& identifier::names_subscription(c.entity)
    &&& sending::queue_named(m, c) is Some
}

/// The rule of a name that is stored.
pub open spec fn rule_at(m: Contents, c: CommandView, name: Seq<char>) -> Option<
    RuleDefinitionView,
> {
    match machine::value_at::<RuleDefinition>(
        m,
        keys::subscription_rule_key(c.namespace, c.entity, name),
    ) {
        Ok(found) => found,
        Err(_) => None,
    }
}

/// A rule with a new name is stored under it, with its filter and the time, while there
/// is room.
pub proof fn new_rules_are_stored(
    m: Contents,
    c: CommandView,
    name: Seq<char>,
    filter: RuleFilterView,
    kept: RuleFilterView,
)
    requires
        c.kind == (KindView::CreateRule { name, filter }),
        machine::applied_time(m) matches Ok(time) && time.0 <= c.issued_at.0,
        names_a_subscription(m, c),
        rule::canonical_filter(filter) matches Ok(stored) && stored == kept,
        !m.dom().contains(keys::subscription_rule_key(c.namespace, c.entity, name)),
        rules::rules_of(m, c.namespace, c.entity) matches Ok(others) && others.len() < 2_000,
        <RuleDefinition as Wire>::fits(
            RuleDefinitionView { name, filter: kept, created_at: c.issued_at },
        ),
    ensures
        apply::applied(m, c).0 == Ok::<OutcomeView, ErrorView>(OutcomeView::RuleCreated),
        rule_at(apply::applied(m, c).1, c, name) == Some(
            RuleDefinitionView { name, filter: kept, created_at: c.issued_at },
        ),
        forall|key: Seq<u8>|
            key != keys::subscription_rule_key(c.namespace, c.entity, name) && key
                != keys::clock_key() ==> #[trigger] lifecycle::agree_on(
                m,
                apply::applied(m, c).1,
                key,
            ),
{
    broadcast use history::one_more_change;

    let key = keys::subscription_rule_key(c.namespace, c.entity, name);
    lifecycle::keys_begin_with_their_tags();
    assert(key[0] == keys::TAG_SUBSCRIPTION_RULE);
    assert(storage::apply_ops(m, Seq::empty()) == m);
    codec::stored_values_read_back::<RuleDefinition>(
        RuleDefinitionView { name, filter: kept, created_at: c.issued_at },
    );
}

/// A rule is refused where there is no subscription, under a name that is taken, with a
/// filter that cannot be stored, and where there are too many.
pub proof fn other_rules_are_refused(
    m: Contents,
    c: CommandView,
    name: Seq<char>,
    filter: RuleFilterView,
)
    requires
        c.kind == (KindView::CreateRule { name, filter }),
        machine::applied_time(m) matches Ok(time) && time.0 <= c.issued_at.0,
    ensures
        ({
            let refused = |error: ErrorView|
                apply::applied(m, c) == (Err::<OutcomeView, ErrorView>(error), m);
            let taken = m.dom().contains(keys::subscription_rule_key(c.namespace, c.entity, name));
            &&& identifier::names_dead_letter_queue(c.entity) || !identifier::names_subscription(
                c.entity,
            ) ==> refused(ErrorView::SubscriptionNotFound)
            &&& names_a_subscription(m, c) ==> {
                &&& rule::canonical_filter(filter) matches Err(error) ==> refused(
                    ErrorView::RuleConfig(error),
                )
                &&& rule::canonical_filter(filter) is Ok && taken ==> refused(
                    ErrorView::RuleAlreadyExists { name },
                )
                &&& rule::canonical_filter(filter) is Ok && !taken ==> (rules::rules_of(
                    m,
                    c.namespace,
                    c.entity,
                ) matches Ok(others) ==> others.len() >= 2_000 ==> refused(
                    ErrorView::RuleLimitExceeded { maximum: 2_000 },
                ))
            }
        }),
{
}

/// A rule that is there is deleted, and nothing else. One that is not there is told.
pub proof fn stored_rules_are_deleted(m: Contents, c: CommandView, name: Seq<char>)
    requires
        c.kind == (KindView::DeleteRule { name }),
        machine::applied_time(m) matches Ok(time) && time.0 <= c.issued_at.0,
        names_a_subscription(m, c),
    ensures
        ({
            let key = keys::subscription_rule_key(c.namespace, c.entity, name);
            let after = apply::applied(m, c).1;
            if m.dom().contains(key) {
                &&& apply::applied(m, c).0 == Ok::<OutcomeView, ErrorView>(
                    OutcomeView::RuleDeleted,
                )
                &&& !after.dom().contains(key)
                &&& forall|other: Seq<u8>|
                    other != key && other != keys::clock_key()
                        ==> #[trigger] lifecycle::agree_on(m, after, other)
            } else {
                apply::applied(m, c) == (
                    Err::<OutcomeView, ErrorView>(ErrorView::RuleNotFound { name }),
                    m,
                )
            }
        }),
{
    broadcast use history::one_more_change;

    let key = keys::subscription_rule_key(c.namespace, c.entity, name);
    lifecycle::keys_begin_with_their_tags();
    assert(key[0] == keys::TAG_SUBSCRIPTION_RULE);
    assert(storage::apply_ops(m, Seq::empty()) == m);
}

/// A page of rules holds those behind the ones to be skipped, in the order of their
/// names, up to the number that was asked for.
pub proof fn rules_are_listed_in_order(
    m: Contents,
    c: CommandView,
    skip: u32,
    most: u32,
    page: Seq<RuleDefinitionView>,
)
    requires
        m.dom().finite(),
        c.kind == (KindView::ListRules { skip, max_rules: most }),
        apply::applied(m, c).0 == Ok::<OutcomeView, ErrorView>(
            OutcomeView::RulesListed { rules: page },
        ),
    ensures
        ({
            let prefix = keys::subscription_rule_prefix_key(c.namespace, c.entity);
            let walked = storage::walk(m, prefix, prefix);
            &&& 1 <= most <= 100
            &&& page.len() == if skip >= walked.len() {
                0
            } else if walked.len() - skip < most {
                walked.len() - skip
            } else {
                most as int
            }
            &&& forall|i: int|
                0 <= i < page.len() ==> machine::value_at::<RuleDefinition>(m, walked[skip + i])
                    == Ok::<Option<RuleDefinitionView>, ErrorView>(Some(#[trigger] page[i]))
        }),
{
    let all = listings_take_their_step(m, c, skip, most, page);
    pages_are_cut_out(m, c.namespace, c.entity, skip, most, all);
}

/// A list of rules is a page of all of them.
proof fn listings_take_their_step(
    m: Contents,
    c: CommandView,
    skip: u32,
    most: u32,
    page: Seq<RuleDefinitionView>,
) -> (all: Seq<RuleDefinitionView>)
    requires
        c.kind == (KindView::ListRules { skip, max_rules: most }),
        apply::applied(m, c).0 == Ok::<OutcomeView, ErrorView>(
            OutcomeView::RulesListed { rules: page },
        ),
    ensures
        1 <= most <= 100,
        rules::rules_of(m, c.namespace, c.entity) == Ok::<Seq<RuleDefinitionView>, ErrorView>(all),
        page == rules::page(all, skip as int, most as int),
{
    rules::rules_of(m, c.namespace, c.entity)->Ok_0
}

proof fn pages_are_cut_out(
    m: Contents,
    namespace: Seq<char>,
    entity: Seq<char>,
    skip: u32,
    most: u32,
    all: Seq<RuleDefinitionView>,
)
    requires
        m.dom().finite(),
        rules::rules_of(m, namespace, entity) == Ok::<Seq<RuleDefinitionView>, ErrorView>(all),
    ensures
        ({
            let prefix = keys::subscription_rule_prefix_key(namespace, entity);
            let walked = storage::walk(m, prefix, prefix);
            let page = rules::page(all, skip as int, most as int);
            &&& page.len() == if skip >= walked.len() {
                0
            } else if walked.len() - skip < most {
                walked.len() - skip
            } else {
                most as int
            }
            &&& forall|i: int|
                0 <= i < page.len() ==> machine::value_at::<RuleDefinition>(m, walked[skip + i])
                    == Ok::<Option<RuleDefinitionView>, ErrorView>(Some(#[trigger] page[i]))
        }),
{
    let prefix = keys::subscription_rule_prefix_key(namespace, entity);
    let walked = storage::walk(m, prefix, prefix);
    let page = rules::page(all, skip as int, most as int);
    publishing::everything_below_is_read::<RuleDefinition>(
        m,
        prefix,
        (rule::MAX_SUBSCRIPTION_RULES + 1) as usize,
    );
    assert forall|i: int| 0 <= i < page.len() implies machine::value_at::<RuleDefinition>(
        m,
        walked[skip + i],
    ) == Ok::<Option<RuleDefinitionView>, ErrorView>(Some(#[trigger] page[i])) by {
        assert(page[i] == all[skip + i]);
    }
}

/// A page of rules is refused when it is empty or too large, and where there is no
/// subscription.
pub proof fn other_pages_are_refused(m: Contents, c: CommandView, skip: u32, most: u32)
    requires
        c.kind == (KindView::ListRules { skip, max_rules: most }),
        machine::applied_time(m) matches Ok(time) && time.0 <= c.issued_at.0,
    ensures
        ({
            let refused = |error: ErrorView|
                apply::applied(m, c) == (Err::<OutcomeView, ErrorView>(error), m);
            &&& most == 0 ==> refused(ErrorView::EmptyRulePage)
            &&& most > 100 ==> refused(
                ErrorView::RulePageTooLarge { requested: most, maximum: 100 },
            )
            &&& 1 <= most <= 100 && (identifier::names_dead_letter_queue(c.entity)
                || !identifier::names_subscription(c.entity)) ==> refused(
                ErrorView::SubscriptionNotFound,
            )
            &&& 1 <= most <= 100 && names_a_subscription(m, c) && rules::rules_of(
                m,
                c.namespace,
                c.entity,
            ) is Ok ==> apply::applied(m, c).0 matches Ok(OutcomeView::RulesListed { .. })
        }),
{
}

// ---- what there is ---------------------------------------------------------

/// Who asks for nothing in particular gets a queue with a lock of a minute, ten deliveries,
/// messages of up to 256 kibibytes that live on, no sessions, and no memory, and topics and
/// subscriptions of the same kind.
pub proof fn plain_settings_are_fit(given: TopicConfig)
    requires
        given.max_message_bytes >= 1,
    ensures
        ({
            let queue = crate::domain::queue::default_queue_config();
            &&& is_fit_for_a_queue(queue)
            &&& queue.lock_duration_millis == 60_000
            &&& queue.max_delivery_count == 10
            &&& queue.default_time_to_live_millis is None
            &&& queue.max_message_bytes == 262_144
            &&& !queue.requires_session
            &&& !queue.requires_duplicate_detection
            &&& queue.duplicate_detection_history_millis == 600_000
        }),
        ({
            let plain = crate::domain::topic::default_topic_config();
            plain.default_time_to_live_millis is None && plain.max_message_bytes == 262_144
        }),
        ({
            let plain = crate::domain::topic::default_subscription_config();
            &&& is_fit_for_a_subscription(plain)
            &&& plain.lock_duration_millis == 60_000
            &&& plain.max_delivery_count == 10
            &&& plain.default_time_to_live_millis is None
        }),
{
}

/// A list of queues names those at the beginning, in their order, up to the number that
/// was asked for.
pub proof fn queues_are_listed_in_order(m: Contents, most: usize, i: int)
    ensures
        catalog::queues_behind(m, None, most) matches Ok(found) ==> {
            let prefix = keys::queue_config_prefix_key();
            let walked = storage::walk(m, prefix, prefix);
            &&& found.len() == if walked.len() < most {
                walked.len()
            } else {
                most as nat
            }
            &&& 0 <= i < found.len() ==> keys::scope_parts(walked[i]) == Some(found[i])
        },
{
    let prefix = keys::queue_config_prefix_key();
    let entries = storage::scan(m, prefix, prefix, most);
    names_are_read_in_order(entries, most, 0, Seq::empty());
    if 0 <= i < entries.len() {
        assert(entries[i].0 == storage::walk(m, prefix, prefix)[i]);
    }
}

proof fn names_are_read_in_order(
    entries: Seq<(Seq<u8>, Seq<u8>)>,
    most: usize,
    i: int,
    found: Seq<catalog::Named>,
)
    requires
        0 <= i <= entries.len() <= most,
        found.len() == i,
        forall|k: int|
            0 <= k < i ==> keys::scope_parts(entries[k].0) == Some(#[trigger] found[k]),
    ensures
        catalog::named_from(entries, None, most, i, found) matches Ok(all) ==> {
            &&& all.len() == entries.len()
            &&& forall|k: int|
                0 <= k < all.len() ==> keys::scope_parts(entries[k].0) == Some(#[trigger] all[k])
        },
    decreases entries.len() - i,
{
    if i < entries.len() {
        if let Ok(named) = catalog::queue_named(entries[i].0) {
            names_are_read_in_order(entries, most, i + 1, found.push(named));
        }
    }
}

} // verus!
