//! Topic and subscription configuration.

use vstd::prelude::*;

use crate::domain::queue::{
    QueueConfig, DEFAULT_DUPLICATE_DETECTION_HISTORY_MILLIS, DEFAULT_LOCK_DURATION_MILLIS,
    DEFAULT_MAX_DELIVERY_COUNT, DEFAULT_MAX_MESSAGE_BYTES, MAX_LOCK_DURATION_MILLIS,
};
use crate::domain::wire::Wire;

verus! {

/// Maximum durable subscriptions on one Standard-tier topic.
pub const MAX_TOPIC_SUBSCRIPTIONS: usize = 2_000;

#[derive(Clone, Copy, Debug, PartialEq, Eq, Structural)]
pub struct TopicConfig {
    /// `None` means messages do not expire at the topic boundary.
    pub default_time_to_live_millis: Option<u64>,
    pub max_message_bytes: usize,
}

impl DeepView for TopicConfig {
    type V = TopicConfig;

    open spec fn deep_view(&self) -> TopicConfig {
        *self
    }
}

#[derive(Clone, Copy, Debug, PartialEq, Eq, Structural)]
pub enum TopicConfigError {
    TimeToLiveTooShort,
    MaxMessageBytesTooSmall,
}

/// The settings of a topic created without any.
pub open spec fn default_topic_config() -> TopicConfig {
    TopicConfig {
        default_time_to_live_millis: None,
        max_message_bytes: DEFAULT_MAX_MESSAGE_BYTES,
    }
}

impl Default for TopicConfig {
    fn default() -> (config: Self)
        ensures
            config == default_topic_config(),
    {
        TopicConfig {
            default_time_to_live_millis: None,
            max_message_bytes: DEFAULT_MAX_MESSAGE_BYTES,
        }
    }
}

/// The first setting of `config` that no topic may have.
pub open spec fn topic_config_fault(config: TopicConfig) -> Option<TopicConfigError> {
    if config.default_time_to_live_millis == Some(0u64) {
        Some(TopicConfigError::TimeToLiveTooShort)
    } else if config.max_message_bytes == 0 {
        Some(TopicConfigError::MaxMessageBytesTooSmall)
    } else {
        None
    }
}

impl TopicConfig {
    pub fn validate(self) -> (valid: Result<TopicConfig, TopicConfigError>)
        ensures
            match valid {
                Ok(config) => config == self && topic_config_fault(self) is None,
                Err(error) => topic_config_fault(self) == Some(error),
            },
    {
        if self.default_time_to_live_millis == Some(0u64) {
            return Err(TopicConfigError::TimeToLiveTooShort);
        }
        if self.max_message_bytes == 0 {
            return Err(TopicConfigError::MaxMessageBytesTooSmall);
        }
        Ok(self)
    }
}

/// Receive-side settings for one match-all subscription.
///
/// Session-aware subscriptions are intentionally absent from this first topic
/// vertical. Adding a boolean that fanout could not honor for mixed
/// subscriptions would expose configuration without implementing its meaning.
#[derive(Clone, Copy, Debug, PartialEq, Eq, Structural)]
pub struct SubscriptionConfig {
    pub lock_duration_millis: u64,
    pub max_delivery_count: u32,
    pub default_time_to_live_millis: Option<u64>,
}

impl DeepView for SubscriptionConfig {
    type V = SubscriptionConfig;

    open spec fn deep_view(&self) -> SubscriptionConfig {
        *self
    }
}

#[derive(Clone, Copy, Debug, PartialEq, Eq, Structural)]
pub enum SubscriptionConfigError {
    LockDurationTooShort,
    LockDurationTooLong { maximum_millis: u64 },
    MaxDeliveryCountTooSmall,
    TimeToLiveTooShort,
}

/// The settings of a subscription created without any.
pub open spec fn default_subscription_config() -> SubscriptionConfig {
    SubscriptionConfig {
        lock_duration_millis: DEFAULT_LOCK_DURATION_MILLIS,
        max_delivery_count: DEFAULT_MAX_DELIVERY_COUNT,
        default_time_to_live_millis: None,
    }
}

impl Default for SubscriptionConfig {
    fn default() -> (config: Self)
        ensures
            config == default_subscription_config(),
    {
        SubscriptionConfig {
            lock_duration_millis: DEFAULT_LOCK_DURATION_MILLIS,
            max_delivery_count: DEFAULT_MAX_DELIVERY_COUNT,
            default_time_to_live_millis: None,
        }
    }
}

/// The first setting of `config` that no subscription may have.
pub open spec fn subscription_config_fault(config: SubscriptionConfig) -> Option<
    SubscriptionConfigError,
> {
    if config.lock_duration_millis == 0 {
        Some(SubscriptionConfigError::LockDurationTooShort)
    } else if config.lock_duration_millis > MAX_LOCK_DURATION_MILLIS {
        Some(
            SubscriptionConfigError::LockDurationTooLong {
                maximum_millis: MAX_LOCK_DURATION_MILLIS,
            },
        )
    } else if config.max_delivery_count == 0 {
        Some(SubscriptionConfigError::MaxDeliveryCountTooSmall)
    } else if config.default_time_to_live_millis == Some(0u64) {
        Some(SubscriptionConfigError::TimeToLiveTooShort)
    } else {
        None
    }
}

/// The queue behind a subscription: its own receive settings, the message limit
/// of its topic, and the defaults for the rest.
pub open spec fn subscription_queue(config: SubscriptionConfig, topic: TopicConfig) -> QueueConfig {
    QueueConfig {
        lock_duration_millis: config.lock_duration_millis,
        max_delivery_count: config.max_delivery_count,
        default_time_to_live_millis: config.default_time_to_live_millis,
        max_message_bytes: topic.max_message_bytes,
        requires_session: false,
        requires_duplicate_detection: false,
        duplicate_detection_history_millis: DEFAULT_DUPLICATE_DETECTION_HISTORY_MILLIS,
    }
}

impl SubscriptionConfig {
    pub fn validate(self) -> (valid: Result<SubscriptionConfig, SubscriptionConfigError>)
        ensures
            match valid {
                Ok(config) => config == self && subscription_config_fault(self) is None,
                Err(error) => subscription_config_fault(self) == Some(error),
            },
    {
        if self.lock_duration_millis == 0 {
            return Err(SubscriptionConfigError::LockDurationTooShort);
        }
        if self.lock_duration_millis > MAX_LOCK_DURATION_MILLIS {
            return Err(
                SubscriptionConfigError::LockDurationTooLong {
                    maximum_millis: MAX_LOCK_DURATION_MILLIS,
                },
            );
        }
        if self.max_delivery_count == 0 {
            return Err(SubscriptionConfigError::MaxDeliveryCountTooSmall);
        }
        if self.default_time_to_live_millis == Some(0u64) {
            return Err(SubscriptionConfigError::TimeToLiveTooShort);
        }
        Ok(self)
    }

    pub(crate) fn queue_config(self, topic: TopicConfig) -> (config: QueueConfig)
        ensures
            config == subscription_queue(self, topic),
    {
        QueueConfig {
            lock_duration_millis: self.lock_duration_millis,
            max_delivery_count: self.max_delivery_count,
            default_time_to_live_millis: self.default_time_to_live_millis,
            max_message_bytes: topic.max_message_bytes,
            requires_session: false,
            requires_duplicate_detection: false,
            duplicate_detection_history_millis: DEFAULT_DUPLICATE_DETECTION_HISTORY_MILLIS,
        }
    }
}

/// The default settings are valid, and a valid subscription of a valid topic is
/// backed by a valid queue.
pub proof fn valid_subscriptions_have_valid_queues(config: SubscriptionConfig, topic: TopicConfig)
    requires
        subscription_config_fault(config) is None,
        topic_config_fault(topic) is None,
    ensures
        topic_config_fault(default_topic_config()) is None,
        subscription_config_fault(default_subscription_config()) is None,
        crate::domain::queue::queue_config_fault(subscription_queue(config, topic)) is None,
{
}

impl Wire for TopicConfig {
    open spec fn fits(v: TopicConfig) -> bool {
        true
    }

    open spec fn wire(v: TopicConfig) -> Seq<u8> {
        <(Option<u64>, usize) as Wire>::wire((v.default_time_to_live_millis, v.max_message_bytes))
    }

    open spec fn unwire(b: Seq<u8>) -> Option<(TopicConfig, Seq<u8>)> {
        match <(Option<u64>, usize) as Wire>::unwire(b) {
            Some(((default_time_to_live_millis, max_message_bytes), rest)) => Some(
                (TopicConfig { default_time_to_live_millis, max_message_bytes }, rest),
            ),
            None => None,
        }
    }

    proof fn round_trip(v: TopicConfig, rest: Seq<u8>) {
        <(Option<u64>, usize) as Wire>::round_trip(
            (v.default_time_to_live_millis, v.max_message_bytes),
            rest,
        );
    }

    fn write(&self, out: &mut Vec<u8>) {
        proof {
            assert(self.default_time_to_live_millis.deep_view()
                == self.default_time_to_live_millis);
        }
        (self.default_time_to_live_millis, self.max_message_bytes).write(out);
    }

    fn read(b: &[u8]) -> (taken: Option<(TopicConfig, &[u8])>) {
        match <(Option<u64>, usize) as Wire>::read(b) {
            Some(((default_time_to_live_millis, max_message_bytes), rest)) => {
                proof {
                    assert(default_time_to_live_millis.deep_view() == default_time_to_live_millis);
                }
                Some((TopicConfig { default_time_to_live_millis, max_message_bytes }, rest))
            },
            None => None,
        }
    }
}

} // verus!
