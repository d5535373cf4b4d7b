//! Queue configuration and counters.

use vstd::prelude::*;

use crate::domain::wire::Wire;

verus! {

/// Longest lock Service Bus accepts, and the value Switchyard enforces so that
/// a client cannot pin a message indefinitely.
pub const MAX_LOCK_DURATION_MILLIS: u64 = 5 * 60 * 1_000;

pub const DEFAULT_LOCK_DURATION_MILLIS: u64 = 60 * 1_000;

pub const DEFAULT_MAX_DELIVERY_COUNT: u32 = 10;

pub const DEFAULT_MAX_MESSAGE_BYTES: usize = 256 * 1024;

/// Service Bus default when duplicate detection is configured without an
/// explicit history window.
pub const DEFAULT_DUPLICATE_DETECTION_HISTORY_MILLIS: u64 = 10 * 60 * 1_000;

pub const MIN_DUPLICATE_DETECTION_HISTORY_MILLIS: u64 = 20 * 1_000;

pub const MAX_DUPLICATE_DETECTION_HISTORY_MILLIS: u64 = 7 * 24 * 60 * 60 * 1_000;

#[derive(Clone, Copy, Debug, PartialEq, Eq, Structural)]
pub struct QueueConfig {
    pub lock_duration_millis: u64,
    pub max_delivery_count: u32,
    /// `None` means messages never expire, matching the Service Bus default of
    /// an effectively unbounded time to live.
    pub default_time_to_live_millis: Option<u64>,
    pub max_message_bytes: usize,
    /// When set, every message carries a session identifier and is only
    /// delivered to a receiver holding that session's lock. Ordering within a
    /// session is the only FIFO guarantee the broker makes.
    pub requires_session: bool,
    /// Whether repeated non-empty message identifiers are accepted but
    /// suppressed within this entity's configured history window.
    pub requires_duplicate_detection: bool,
    /// How long an accepted message identifier remains a duplicate.
    pub duplicate_detection_history_millis: u64,
}

impl DeepView for QueueConfig {
    type V = QueueConfig;

    open spec fn deep_view(&self) -> QueueConfig {
        *self
    }
}

#[derive(Clone, Copy, Debug, PartialEq, Eq, Structural)]
pub enum QueueConfigError {
    LockDurationTooShort,
    LockDurationTooLong { maximum_millis: u64 },
    MaxDeliveryCountTooSmall,
    MaxMessageBytesTooSmall,
    TimeToLiveTooShort,
    DuplicateDetectionHistoryTooShort { minimum_millis: u64 },
    DuplicateDetectionHistoryTooLong { maximum_millis: u64 },
}

/// The settings of a queue created without any.
pub open spec fn default_queue_config() -> QueueConfig {
    QueueConfig {
        lock_duration_millis: DEFAULT_LOCK_DURATION_MILLIS,
        max_delivery_count: DEFAULT_MAX_DELIVERY_COUNT,
        default_time_to_live_millis: None,
        max_message_bytes: DEFAULT_MAX_MESSAGE_BYTES,
        requires_session: false,
        requires_duplicate_detection: false,
        duplicate_detection_history_millis: DEFAULT_DUPLICATE_DETECTION_HISTORY_MILLIS,
    }
}

impl Default for QueueConfig {
    fn default() -> (config: Self)
        ensures
            config == default_queue_config(),
    {
        QueueConfig {
            lock_duration_millis: DEFAULT_LOCK_DURATION_MILLIS,
            max_delivery_count: DEFAULT_MAX_DELIVERY_COUNT,
            default_time_to_live_millis: None,
            max_message_bytes: DEFAULT_MAX_MESSAGE_BYTES,
            requires_session: false,
            requires_duplicate_detection: false,
            duplicate_detection_history_millis: DEFAULT_DUPLICATE_DETECTION_HISTORY_MILLIS,
        }
    }
}

/// The first setting of `config` that no queue may have.
pub open spec fn queue_config_fault(config: QueueConfig) -> Option<QueueConfigError> {
    if config.lock_duration_millis == 0 {
        Some(QueueConfigError::LockDurationTooShort)
    } else if config.lock_duration_millis > MAX_LOCK_DURATION_MILLIS {
        Some(QueueConfigError::LockDurationTooLong { maximum_millis: MAX_LOCK_DURATION_MILLIS })
    } else if config.max_delivery_count == 0 {
        Some(QueueConfigError::MaxDeliveryCountTooSmall)
    } else if config.max_message_bytes == 0 {
        Some(QueueConfigError::MaxMessageBytesTooSmall)
    } else if config.default_time_to_live_millis == Some(0u64) {
        Some(QueueConfigError::TimeToLiveTooShort)
    } else if config.duplicate_detection_history_millis < MIN_DUPLICATE_DETECTION_HISTORY_MILLIS {
        Some(
            QueueConfigError::DuplicateDetectionHistoryTooShort {
                minimum_millis: MIN_DUPLICATE_DETECTION_HISTORY_MILLIS,
            },
        )
    } else if config.duplicate_detection_history_millis > MAX_DUPLICATE_DETECTION_HISTORY_MILLIS {
        Some(
            QueueConfigError::DuplicateDetectionHistoryTooLong {
                maximum_millis: MAX_DUPLICATE_DETECTION_HISTORY_MILLIS,
            },
        )
    } else {
        None
    }
}

impl QueueConfig {
    pub fn validate(self) -> (valid: Result<QueueConfig, QueueConfigError>)
        ensures
            match valid {
                Ok(config) => config == self && queue_config_fault(self) is None,
                Err(error) => queue_config_fault(self) == Some(error),
            },
    {
        if self.lock_duration_millis == 0 {
            return Err(QueueConfigError::LockDurationTooShort);
        }
        if self.lock_duration_millis > MAX_LOCK_DURATION_MILLIS {
            return Err(
                QueueConfigError::LockDurationTooLong { maximum_millis: MAX_LOCK_DURATION_MILLIS },
            );
        }
        if self.max_delivery_count == 0 {
            return Err(QueueConfigError::MaxDeliveryCountTooSmall);
        }
        if self.max_message_bytes == 0 {
            return Err(QueueConfigError::MaxMessageBytesTooSmall);
        }
        if self.default_time_to_live_millis == Some(0u64) {
            return Err(QueueConfigError::TimeToLiveTooShort);
        }
        if self.duplicate_detection_history_millis < MIN_DUPLICATE_DETECTION_HISTORY_MILLIS {
            return Err(
                QueueConfigError::DuplicateDetectionHistoryTooShort {
                    minimum_millis: MIN_DUPLICATE_DETECTION_HISTORY_MILLIS,
                },
            );
        }
        if self.duplicate_detection_history_millis > MAX_DUPLICATE_DETECTION_HISTORY_MILLIS {
            return Err(
                QueueConfigError::DuplicateDetectionHistoryTooLong {
                    maximum_millis: MAX_DUPLICATE_DETECTION_HISTORY_MILLIS,
                },
            );
        }
        Ok(self)
    }
}

/// The default settings are valid.
pub proof fn default_queue_config_is_valid()
    ensures
        queue_config_fault(default_queue_config()) is None,
{
}

/// Per-entity replicated counters.
///
/// Sequence numbers and lock tokens are allocated here rather than generated
/// locally so that every replica applying the same command derives the same
/// identifiers.
#[derive(Clone, Copy, Debug, PartialEq, Eq, Structural)]
pub struct QueueCounters {
    pub next_sequence: u64,
    pub next_lock_token: u64,
}

impl DeepView for QueueCounters {
    type V = QueueCounters;

    open spec fn deep_view(&self) -> QueueCounters {
        *self
    }
}

/// The counters of an entity that never allocated anything.
pub open spec fn fresh_counters() -> QueueCounters {
    QueueCounters { next_sequence: 1, next_lock_token: 1 }
}

impl Default for QueueCounters {
    fn default() -> (counters: Self)
        ensures
            counters == fresh_counters(),
    {
        QueueCounters { next_sequence: 1, next_lock_token: 1 }
    }
}

/// `n` plus one, held at the largest value.
pub open spec fn bump(n: u64) -> u64 {
    if n < u64::MAX {
        (n + 1) as u64
    } else {
        n
    }
}

// ---- stored layout ---------------------------------------------------------

pub type QueueConfigFields = (u64, (u32, (Option<u64>, (usize, (bool, (bool, u64))))));

impl QueueConfig {
    pub open spec fn fields(v: QueueConfig) -> QueueConfigFields {
        (
            v.lock_duration_millis,
            (
                v.max_delivery_count,
                (
                    v.default_time_to_live_millis,
                    (
                        v.max_message_bytes,
                        (
                            v.requires_session,
                            (v.requires_duplicate_detection, v.duplicate_detection_history_millis),
                        ),
                    ),
                ),
            ),
        )
    }
}

impl Wire for QueueConfig {
    open spec fn fits(v: QueueConfig) -> bool {
        true
    }

    open spec fn wire(v: QueueConfig) -> Seq<u8> {
        <QueueConfigFields as Wire>::wire(
            QueueConfig::fields(v),
        )
    }

    open spec fn unwire(b: Seq<u8>) -> Option<(QueueConfig, Seq<u8>)> {
        match <QueueConfigFields as Wire>::unwire(b) {
            Some(((lock, (count, (ttl, (size, (session, (duplicate, history)))))), rest)) => Some(
                (
                    QueueConfig {
                        lock_duration_millis: lock,
                        max_delivery_count: count,
                        default_time_to_live_millis: ttl,
                        max_message_bytes: size,
                        requires_session: session,
                        requires_duplicate_detection: duplicate,
                        duplicate_detection_history_millis: history,
                    },
                    rest,
                ),
            ),
            None => None,
        }
    }

    proof fn round_trip(v: QueueConfig, rest: Seq<u8>) {
        <QueueConfigFields as Wire>::round_trip(QueueConfig::fields(v), rest);
    }

    fn write(&self, out: &mut Vec<u8>) {
        let fields: QueueConfigFields = (
            self.lock_duration_millis,
            (
                self.max_delivery_count,
                (
                    self.default_time_to_live_millis,
                    (
                        self.max_message_bytes,
                        (
                            self.requires_session,
                            (
                                self.requires_duplicate_detection,
                                self.duplicate_detection_history_millis,
                            ),
                        ),
                    ),
                ),
            ),
        );
        proof {
            assert(fields.deep_view() == QueueConfig::fields(*self));
        }
        fields.write(out);
    }

    fn read(b: &[u8]) -> (taken: Option<(QueueConfig, &[u8])>) {
        match <QueueConfigFields as Wire>::read(b) {
            Some(((lock, (count, (ttl, (size, (session, (duplicate, history)))))), rest)) => {
                proof {
                    assert(ttl.deep_view() == ttl);
                }
                Some(
                    (
                        QueueConfig {
                            lock_duration_millis: lock,
                            max_delivery_count: count,
                            default_time_to_live_millis: ttl,
                            max_message_bytes: size,
                            requires_session: session,
                            requires_duplicate_detection: duplicate,
                            duplicate_detection_history_millis: history,
                        },
                        rest,
                    ),
                )
            },
            None => None,
        }
    }
}

impl Wire for QueueCounters {
    open spec fn fits(v: QueueCounters) -> bool {
        true
    }

    open spec fn wire(v: QueueCounters) -> Seq<u8> {
        <(u64, u64) as Wire>::wire((v.next_sequence, v.next_lock_token))
    }

    open spec fn unwire(b: Seq<u8>) -> Option<(QueueCounters, Seq<u8>)> {
        match <(u64, u64) as Wire>::unwire(b) {
            Some(((next_sequence, next_lock_token), rest)) => Some(
                (QueueCounters { next_sequence, next_lock_token }, rest),
            ),
            None => None,
        }
    }

    proof fn round_trip(v: QueueCounters, rest: Seq<u8>) {
        <(u64, u64) as Wire>::round_trip((v.next_sequence, v.next_lock_token), rest);
    }

    fn write(&self, out: &mut Vec<u8>) {
        (self.next_sequence, self.next_lock_token).write(out);
    }

    fn read(b: &[u8]) -> (taken: Option<(QueueCounters, &[u8])>) {
        match <(u64, u64) as Wire>::read(b) {
            Some(((next_sequence, next_lock_token), rest)) => Some(
                (QueueCounters { next_sequence, next_lock_token }, rest),
            ),
            None => None,
        }
    }
}

} // verus!
