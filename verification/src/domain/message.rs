//! Messages: their stored form and how they are handed out.

use vstd::prelude::*;

use crate::bytes;
use crate::domain::codec;
use crate::domain::codec::CodecError;
use crate::domain::identifier::SessionId;
use crate::domain::rule;
use crate::domain::rule::{FilterProperties, PropertiesView};
use crate::domain::time::Timestamp;
use crate::domain::wire::Wire;

verus! {

/// The Service Bus message identifier limit.
pub const MAX_MESSAGE_ID_CHARACTERS: usize = 128;

/// Position of a message in its entity's total order. Allocated from a
/// replicated counter, never from a local generator.
#[derive(Clone, Copy, Debug, Default, PartialEq, Eq, PartialOrd, Ord, Hash, Structural)]
pub struct SequenceNumber(pub u64);

impl DeepView for SequenceNumber {
    type V = SequenceNumber;

    open spec fn deep_view(&self) -> SequenceNumber {
        *self
    }
}

impl SequenceNumber {
    pub fn new(value: u64) -> (sequence: SequenceNumber)
        ensures
            sequence == SequenceNumber(value),
    {
        SequenceNumber(value)
    }

    pub fn as_u64(self) -> (value: u64)
        ensures
            value == self.0,
    {
        self.0
    }
}

/// Identifies one delivery's claim on a message.
///
/// The token is drawn from a replicated per-entity counter so that every
/// replica derives the same value while applying the same command. It is not a
/// secret: the protocol edge is responsible for only handing a token to the
/// receiver that acquired it.
#[derive(Clone, Copy, Debug, Default, PartialEq, Eq, PartialOrd, Ord, Hash, Structural)]
pub struct LockToken(pub u64);

impl DeepView for LockToken {
    type V = LockToken;

    open spec fn deep_view(&self) -> LockToken {
        *self
    }
}

impl LockToken {
    pub fn new(value: u64) -> (token: LockToken)
        ensures
            token == LockToken(value),
    {
        LockToken(value)
    }

    pub fn as_u64(self) -> (value: u64)
        ensures
            value == self.0,
    {
        self.0
    }
}

#[derive(Clone, Copy, Debug, PartialEq, Eq, Structural)]
pub enum ReceiveMode {
    PeekLock,
    ReceiveAndDelete,
}

#[derive(Clone, Copy, Debug, PartialEq, Eq, Structural)]
pub enum DeliveryGuarantee {
    AtLeastOnce,
    AtMostOnce,
}

impl ReceiveMode {
    pub fn delivery_guarantee(self) -> (guarantee: DeliveryGuarantee)
        ensures
            guarantee == (match self {
                ReceiveMode::PeekLock => DeliveryGuarantee::AtLeastOnce,
                ReceiveMode::ReceiveAndDelete => DeliveryGuarantee::AtMostOnce,
            }),
    {
        match self {
            ReceiveMode::PeekLock => DeliveryGuarantee::AtLeastOnce,
            ReceiveMode::ReceiveAndDelete => DeliveryGuarantee::AtMostOnce,
        }
    }
}

/// Broker-visible state carried with a delivery or browse result.
///
/// A deferred message is temporarily locked while it is received by sequence
/// number. Persisting its origin in that lock is what makes abandon and lock
/// expiry put it back in the deferred set instead of making it visible to an
/// ordinary receiver. `Scheduled` is browse-only: a scheduled placeholder is
/// never locked or handed to a receiver.
#[derive(Clone, Copy, Debug, PartialEq, Eq, Structural)]
pub enum DeliveryOrigin {
    Ready,
    Deferred,
    /// Browse-only origin for a message that has not reached its scheduled
    /// enqueue time. Scheduled messages never carry delivery locks.
    Scheduled,
}

impl DeepView for DeliveryOrigin {
    type V = DeliveryOrigin;

    open spec fn deep_view(&self) -> DeliveryOrigin {
        *self
    }
}

#[derive(Debug, PartialEq, Eq)]
pub enum DeadLetterReason {
    MaxDeliveryCountExceeded,
    TimeToLiveExpired,
    Application(String),
}

pub enum DeadLetterReasonView {
    MaxDeliveryCountExceeded,
    TimeToLiveExpired,
    Application(Seq<char>),
}

impl DeepView for DeadLetterReason {
    type V = DeadLetterReasonView;

    open spec fn deep_view(&self) -> DeadLetterReasonView {
        match self {
            DeadLetterReason::MaxDeliveryCountExceeded => {
                DeadLetterReasonView::MaxDeliveryCountExceeded
            },
            DeadLetterReason::TimeToLiveExpired => DeadLetterReasonView::TimeToLiveExpired,
            DeadLetterReason::Application(reason) => DeadLetterReasonView::Application(reason@),
        }
    }
}

impl Clone for DeadLetterReason {
    fn clone(&self) -> (copy: Self)
        ensures
            copy.deep_view() == self.deep_view(),
    {
        match self {
            DeadLetterReason::MaxDeliveryCountExceeded => {
                DeadLetterReason::MaxDeliveryCountExceeded
            },
            DeadLetterReason::TimeToLiveExpired => DeadLetterReason::TimeToLiveExpired,
            DeadLetterReason::Application(reason) => DeadLetterReason::Application(reason.clone()),
        }
    }
}

impl DeadLetterReason {
    /// The reason string the Service Bus SDKs expect to read back from a
    /// dead-lettered message.
    pub fn as_str(&self) -> (text: &str)
        ensures
            text@ == (match self.deep_view() {
                DeadLetterReasonView::MaxDeliveryCountExceeded => "MaxDeliveryCountExceeded"@,
                DeadLetterReasonView::TimeToLiveExpired => "TTLExpiredException"@,
                DeadLetterReasonView::Application(reason) => reason,
            }),
    {
        match self {
            DeadLetterReason::MaxDeliveryCountExceeded => "MaxDeliveryCountExceeded",
            DeadLetterReason::TimeToLiveExpired => "TTLExpiredException",
            DeadLetterReason::Application(reason) => reason.as_str(),
        }
    }
}

#[derive(Debug, PartialEq, Eq)]
pub struct DeadLetterInfo {
    pub reason: DeadLetterReason,
    pub description: String,
    pub dead_lettered_at: Timestamp,
}

pub struct DeadLetterInfoView {
    pub reason: DeadLetterReasonView,
    pub description: Seq<char>,
    pub dead_lettered_at: Timestamp,
}

impl DeepView for DeadLetterInfo {
    type V = DeadLetterInfoView;

    open spec fn deep_view(&self) -> DeadLetterInfoView {
        DeadLetterInfoView {
            reason: self.reason.deep_view(),
            description: self.description@,
            dead_lettered_at: self.dead_lettered_at,
        }
    }
}

impl Clone for DeadLetterInfo {
    fn clone(&self) -> (copy: Self)
        ensures
            copy.deep_view() == self.deep_view(),
    {
        DeadLetterInfo {
            reason: self.reason.clone(),
            description: self.description.clone(),
            dead_lettered_at: self.dead_lettered_at,
        }
    }
}

#[derive(Clone, Copy, Debug, PartialEq, Eq, Structural)]
pub enum MessageState {
    Ready,
    Deferred,
    Scheduled,
    Locked { token: LockToken, locked_until: Timestamp, origin: DeliveryOrigin },
}

impl DeepView for MessageState {
    type V = MessageState;

    open spec fn deep_view(&self) -> MessageState {
        *self
    }
}

/// The protocol-native representation of a message.
///
/// The broker treats these bytes as opaque durable data. Protocol adapters
/// retain normalized fields alongside them for routing, expiry, and settlement
/// decisions, then use the envelope to reconstruct the message without losing
/// protocol-specific metadata or body forms. The properties that subscription
/// rules may inspect accompany the bytes of a message that is sent. They are not
/// stored.
#[derive(Debug, PartialEq, Eq)]
pub struct MessageEnvelope {
    bytes: Vec<u8>,
    filter_properties: FilterProperties,
}

pub struct EnvelopeView {
    pub bytes: Seq<u8>,
    pub filter_properties: PropertiesView,
}

/// What is stored of an envelope: its bytes.
pub open spec fn stored_envelope(envelope: EnvelopeView) -> EnvelopeView {
    EnvelopeView { bytes: envelope.bytes, filter_properties: rule::no_properties() }
}

/// What is stored of an envelope, if there is one.
pub open spec fn kept(envelope: Option<EnvelopeView>) -> Option<EnvelopeView> {
    match envelope {
        Some(envelope) => Some(stored_envelope(envelope)),
        None => None,
    }
}

impl DeepView for MessageEnvelope {
    type V = EnvelopeView;

    closed spec fn deep_view(&self) -> EnvelopeView {
        EnvelopeView {
            bytes: self.bytes@,
            filter_properties: self.filter_properties.deep_view(),
        }
    }
}

impl Clone for MessageEnvelope {
    fn clone(&self) -> (copy: Self)
        ensures
            copy.deep_view() == self.deep_view(),
    {
        MessageEnvelope {
            bytes: bytes::copy_bytes(self.bytes.as_slice()),
            filter_properties: self.filter_properties.clone(),
        }
    }
}

impl Default for MessageEnvelope {
    fn default() -> (envelope: Self)
        ensures
            envelope.deep_view().bytes == Seq::<u8>::empty(),
            envelope.deep_view().filter_properties == rule::no_properties(),
    {
        MessageEnvelope::new(Vec::new())
    }
}

impl MessageEnvelope {
    /// An envelope without properties for rules to inspect.
    pub fn new(bytes: Vec<u8>) -> (envelope: MessageEnvelope)
        ensures
            envelope.deep_view() == (EnvelopeView {
                bytes: bytes@,
                filter_properties: rule::no_properties(),
            }),
    {
        MessageEnvelope { bytes, filter_properties: FilterProperties::default() }
    }

    /// An envelope together with the properties that rules may inspect.
    pub fn with_filter_properties(bytes: Vec<u8>, filter_properties: FilterProperties) -> (envelope:
        MessageEnvelope)
        ensures
            envelope.deep_view() == (EnvelopeView {
                bytes: bytes@,
                filter_properties: filter_properties.deep_view(),
            }),
    {
        MessageEnvelope { bytes, filter_properties }
    }

    pub fn filter_properties(&self) -> (properties: &FilterProperties)
        ensures
            properties.deep_view() == self.deep_view().filter_properties,
    {
        &self.filter_properties
    }

    /// The envelope as it is stored.
    pub(crate) fn to_stored(&self) -> (envelope: MessageEnvelope)
        ensures
            envelope.deep_view() == stored_envelope(self.deep_view()),
    {
        MessageEnvelope::new(bytes::copy_bytes(self.bytes.as_slice()))
    }

    pub fn as_bytes(&self) -> (bytes: &[u8])
        ensures
            bytes@ == self.deep_view().bytes,
    {
        self.bytes.as_slice()
    }

    pub fn into_bytes(self) -> (bytes: Vec<u8>)
        ensures
            bytes@ == self.deep_view().bytes,
    {
        self.bytes
    }

    pub fn len(&self) -> (n: usize)
        ensures
            n == self.deep_view().bytes.len(),
    {
        self.bytes.len()
    }

    pub fn is_empty(&self) -> (empty: bool)
        ensures
            empty == (self.deep_view().bytes.len() == 0),
    {
        self.bytes.len() == 0
    }
}

#[derive(Debug, PartialEq, Eq)]
pub struct MessageRecord {
    pub sequence: SequenceNumber,
    pub message_id: String,
    pub body: Vec<u8>,
    pub enqueued_at: Timestamp,
    /// Requested enqueue time for a scheduled send. This survives activation
    /// for protocol observability while `enqueued_at` is replaced with the
    /// actual activation time.
    pub scheduled_enqueue_at: Option<Timestamp>,
    /// Active messages expire at this deadline. For a scheduled placeholder,
    /// this temporarily records scheduled time plus effective TTL so activation
    /// can preserve the duration while rebasing it on the actual enqueue time.
    pub expires_at: Option<Timestamp>,
    pub delivery_count: u32,
    pub state: MessageState,
    /// Set exactly when the queue requires sessions.
    pub session_id: Option<SessionId>,
    /// Why the message was dead-lettered, once it lives in a dead-letter queue.
    ///
    /// Dead-lettered is not a state of its own: a message in a dead-letter
    /// queue is ready or locked like any other, which is what lets the same
    /// receive and settlement machinery drain it. This field is what remembers
    /// how it got there.
    pub dead_letter: Option<DeadLetterInfo>,
    /// The lossless protocol-native message, when the ingress adapter supplied
    /// one. Non-protocol producers have no envelope.
    pub envelope: Option<MessageEnvelope>,
}

pub struct RecordView {
    pub sequence: SequenceNumber,
    pub message_id: Seq<char>,
    pub body: Seq<u8>,
    pub enqueued_at: Timestamp,
    pub scheduled_enqueue_at: Option<Timestamp>,
    pub expires_at: Option<Timestamp>,
    pub delivery_count: u32,
    pub state: MessageState,
    pub session_id: Option<Seq<char>>,
    pub dead_letter: Option<DeadLetterInfoView>,
    pub envelope: Option<EnvelopeView>,
}

impl DeepView for MessageRecord {
    type V = RecordView;

    open spec fn deep_view(&self) -> RecordView {
        RecordView {
            sequence: self.sequence,
            message_id: self.message_id@,
            body: self.body@,
            enqueued_at: self.enqueued_at,
            scheduled_enqueue_at: self.scheduled_enqueue_at,
            expires_at: self.expires_at,
            delivery_count: self.delivery_count,
            state: self.state,
            session_id: self.session_id.deep_view(),
            dead_letter: self.dead_letter.deep_view(),
            envelope: self.envelope.deep_view(),
        }
    }
}

/// A message whose lifetime has elapsed. One without a lifetime never expires.
pub open spec fn expired(record: RecordView, now: Timestamp) -> bool {
    match record.expires_at {
        Some(expires_at) => expires_at.0 <= now.0,
        None => false,
    }
}

/// The message in a stored envelope. Messages have the first version alone.
pub open spec fn decoded_record(envelope: Seq<u8>) -> Result<RecordView, CodecError> {
    match codec::envelope_parts(envelope) {
        Err(error) => Err(error),
        Ok((version, payload)) => if version != codec::VALUE_FORMAT_V1 {
            Err(CodecError::UnsupportedVersion { version })
        } else {
            codec::payload_value::<MessageRecord>(payload)
        },
    }
}

impl MessageRecord {
    /// Decodes a stored message from the V1 value format.
    pub fn decode(envelope: &[u8]) -> (record: Result<MessageRecord, CodecError>)
        ensures
            match record {
                Ok(record) => decoded_record(envelope@) == Ok::<RecordView, CodecError>(
                    record.deep_view(),
                ),
                Err(error) => decoded_record(envelope@) == Err::<RecordView, CodecError>(error),
            },
    {
        let (version, payload) = codec::split(envelope)?;
        if version != codec::VALUE_FORMAT_V1 {
            return Err(CodecError::UnsupportedVersion { version });
        }
        codec::decode_payload(payload)
    }

    /// A message with no configured lifetime never expires, which is the
    /// Service Bus default.
    pub fn is_expired_at(&self, now: Timestamp) -> (yes: bool)
        ensures
            yes == expired(self.deep_view(), now),
    {
        match self.expires_at {
            Some(expires_at) => expires_at.0 <= now.0,
            None => false,
        }
    }

    pub fn dead_letter_info(&self) -> (info: Option<&DeadLetterInfo>)
        ensures
            info.deep_view() == self.deep_view().dead_letter,
    {
        self.dead_letter.as_ref()
    }
}

/// A stored message decodes to itself.
pub proof fn stored_messages_read_back(record: RecordView)
    requires
        <MessageRecord as Wire>::fits(record),
    ensures
        decoded_record(codec::encoded::<MessageRecord>(record)) == Ok::<RecordView, CodecError>(
            record,
        ),
{
    codec::stored_values_read_back::<MessageRecord>(record);
}

/// One message handed to a receiver.
#[derive(Debug, PartialEq, Eq)]
pub struct Delivery {
    pub sequence: SequenceNumber,
    pub message_id: String,
    pub body: Vec<u8>,
    pub enqueued_at: Timestamp,
    pub scheduled_enqueue_at: Option<Timestamp>,
    pub expires_at: Option<Timestamp>,
    pub delivery_count: u32,
    /// Whether this was active, deferred, or a browse-only scheduled result.
    pub origin: DeliveryOrigin,
    /// Absent in receive-and-delete, where the message is already gone.
    pub lock: Option<DeliveryLock>,
    /// The session this message was delivered from, on a session queue.
    pub session_id: Option<SessionId>,
    /// Why the message was dead-lettered, when it came from a dead-letter
    /// queue.
    pub dead_letter: Option<DeadLetterInfo>,
    /// The lossless protocol-native message, when one accompanied the send.
    pub envelope: Option<MessageEnvelope>,
}

#[derive(Clone, Copy, Debug, PartialEq, Eq, Structural)]
pub struct DeliveryLock {
    pub token: LockToken,
    pub locked_until: Timestamp,
    /// Effective duration used to create this lock, after applying any
    /// per-receive override.
    pub lock_duration_millis: u64,
}

pub struct DeliveryView {
    pub sequence: SequenceNumber,
    pub message_id: Seq<char>,
    pub body: Seq<u8>,
    pub enqueued_at: Timestamp,
    pub scheduled_enqueue_at: Option<Timestamp>,
    pub expires_at: Option<Timestamp>,
    pub delivery_count: u32,
    pub origin: DeliveryOrigin,
    pub lock: Option<DeliveryLock>,
    pub session_id: Option<Seq<char>>,
    pub dead_letter: Option<DeadLetterInfoView>,
    pub envelope: Option<EnvelopeView>,
}

impl DeepView for Delivery {
    type V = DeliveryView;

    open spec fn deep_view(&self) -> DeliveryView {
        DeliveryView {
            sequence: self.sequence,
            message_id: self.message_id@,
            body: self.body@,
            enqueued_at: self.enqueued_at,
            scheduled_enqueue_at: self.scheduled_enqueue_at,
            expires_at: self.expires_at,
            delivery_count: self.delivery_count,
            origin: self.origin,
            lock: self.lock,
            session_id: self.session_id.deep_view(),
            dead_letter: self.dead_letter.deep_view(),
            envelope: self.envelope.deep_view(),
        }
    }
}

/// `record` handed out from `origin` under `lock`.
pub open spec fn delivery_of(
    record: RecordView,
    origin: DeliveryOrigin,
    lock: Option<DeliveryLock>,
) -> DeliveryView {
    DeliveryView {
        sequence: record.sequence,
        message_id: record.message_id,
        body: record.body,
        enqueued_at: record.enqueued_at,
        scheduled_enqueue_at: record.scheduled_enqueue_at,
        expires_at: record.expires_at,
        delivery_count: record.delivery_count,
        origin,
        lock,
        session_id: record.session_id,
        dead_letter: record.dead_letter,
        envelope: record.envelope,
    }
}

impl Delivery {
    pub(crate) fn of(
        record: MessageRecord,
        origin: DeliveryOrigin,
        lock: Option<DeliveryLock>,
    ) -> (delivery: Delivery)
        ensures
            delivery.deep_view() == delivery_of(record.deep_view(), origin, lock),
    {
        Delivery {
            sequence: record.sequence,
            message_id: record.message_id,
            body: record.body,
            enqueued_at: record.enqueued_at,
            scheduled_enqueue_at: record.scheduled_enqueue_at,
            expires_at: record.expires_at,
            delivery_count: record.delivery_count,
            origin,
            lock,
            session_id: record.session_id,
            dead_letter: record.dead_letter,
            envelope: record.envelope,
        }
    }
}

// ---- stored layout ---------------------------------------------------------

impl Wire for SequenceNumber {
    open spec fn fits(v: SequenceNumber) -> bool {
        true
    }

    open spec fn wire(v: SequenceNumber) -> Seq<u8> {
        <u64 as Wire>::wire(v.0)
    }

    open spec fn unwire(b: Seq<u8>) -> Option<(SequenceNumber, Seq<u8>)> {
        match <u64 as Wire>::unwire(b) {
            Some((value, rest)) => Some((SequenceNumber(value), rest)),
            None => None,
        }
    }

    proof fn round_trip(v: SequenceNumber, rest: Seq<u8>) {
        <u64 as Wire>::round_trip(v.0, rest);
    }

    fn write(&self, out: &mut Vec<u8>) {
        self.0.write(out);
    }

    fn read(b: &[u8]) -> (taken: Option<(SequenceNumber, &[u8])>) {
        match <u64 as Wire>::read(b) {
            Some((value, rest)) => Some((SequenceNumber(value), rest)),
            None => None,
        }
    }
}

impl Wire for LockToken {
    open spec fn fits(v: LockToken) -> bool {
        true
    }

    open spec fn wire(v: LockToken) -> Seq<u8> {
        <u64 as Wire>::wire(v.0)
    }

    open spec fn unwire(b: Seq<u8>) -> Option<(LockToken, Seq<u8>)> {
        match <u64 as Wire>::unwire(b) {
            Some((value, rest)) => Some((LockToken(value), rest)),
            None => None,
        }
    }

    proof fn round_trip(v: LockToken, rest: Seq<u8>) {
        <u64 as Wire>::round_trip(v.0, rest);
    }

    fn write(&self, out: &mut Vec<u8>) {
        self.0.write(out);
    }

    fn read(b: &[u8]) -> (taken: Option<(LockToken, &[u8])>) {
        match <u64 as Wire>::read(b) {
            Some((value, rest)) => Some((LockToken(value), rest)),
            None => None,
        }
    }
}

impl Wire for DeliveryOrigin {
    open spec fn fits(v: DeliveryOrigin) -> bool {
        true
    }

    open spec fn wire(v: DeliveryOrigin) -> Seq<u8> {
        match v {
            DeliveryOrigin::Ready => <u32 as Wire>::wire(0),
            DeliveryOrigin::Deferred => <u32 as Wire>::wire(1),
            DeliveryOrigin::Scheduled => <u32 as Wire>::wire(2),
        }
    }

    open spec fn unwire(b: Seq<u8>) -> Option<(DeliveryOrigin, Seq<u8>)> {
        match <u32 as Wire>::unwire(b) {
            Some((0, rest)) => Some((DeliveryOrigin::Ready, rest)),
            Some((1, rest)) => Some((DeliveryOrigin::Deferred, rest)),
            Some((2, rest)) => Some((DeliveryOrigin::Scheduled, rest)),
            _ => None,
        }
    }

    proof fn round_trip(v: DeliveryOrigin, rest: Seq<u8>) {
        <u32 as Wire>::round_trip(0, rest);
        <u32 as Wire>::round_trip(1, rest);
        <u32 as Wire>::round_trip(2, rest);
    }

    fn write(&self, out: &mut Vec<u8>) {
        match self {
            DeliveryOrigin::Ready => 0u32.write(out),
            DeliveryOrigin::Deferred => 1u32.write(out),
            DeliveryOrigin::Scheduled => 2u32.write(out),
        }
    }

    fn read(b: &[u8]) -> (taken: Option<(DeliveryOrigin, &[u8])>) {
        match <u32 as Wire>::read(b) {
            Some((0, rest)) => Some((DeliveryOrigin::Ready, rest)),
            Some((1, rest)) => Some((DeliveryOrigin::Deferred, rest)),
            Some((2, rest)) => Some((DeliveryOrigin::Scheduled, rest)),
            _ => None,
        }
    }
}

type LockFields = (LockToken, (Timestamp, DeliveryOrigin));

impl Wire for MessageState {
    open spec fn fits(v: MessageState) -> bool {
        true
    }

    open spec fn wire(v: MessageState) -> Seq<u8> {
        match v {
            MessageState::Ready => <u32 as Wire>::wire(0),
            MessageState::Deferred => <u32 as Wire>::wire(1),
            MessageState::Scheduled => <u32 as Wire>::wire(2),
            MessageState::Locked { token, locked_until, origin } => <u32 as Wire>::wire(3)
                + <(LockToken, (Timestamp, DeliveryOrigin)) as Wire>::wire(
                (token, (locked_until, origin)),
            ),
        }
    }

    open spec fn unwire(b: Seq<u8>) -> Option<(MessageState, Seq<u8>)> {
        match <u32 as Wire>::unwire(b) {
            Some((0, rest)) => Some((MessageState::Ready, rest)),
            Some((1, rest)) => Some((MessageState::Deferred, rest)),
            Some((2, rest)) => Some((MessageState::Scheduled, rest)),
            Some((3, rest)) => match <(LockToken, (Timestamp, DeliveryOrigin)) as Wire>::unwire(
                rest,
            ) {
                Some(((token, (locked_until, origin)), rest)) => Some(
                    (MessageState::Locked { token, locked_until, origin }, rest),
                ),
                None => None,
            },
            _ => None,
        }
    }

    proof fn round_trip(v: MessageState, rest: Seq<u8>) {
        match v {
            MessageState::Locked { token, locked_until, origin } => {
                let body = <LockFields as Wire>::wire((token, (locked_until, origin)));
                <u32 as Wire>::round_trip(3, body + rest);
                <LockFields as Wire>::round_trip((token, (locked_until, origin)), rest);
                assert(Self::wire(v) + rest =~= <u32 as Wire>::wire(3) + (body + rest));
            },
            MessageState::Ready => {
                <u32 as Wire>::round_trip(0, rest);
            },
            MessageState::Deferred => {
                <u32 as Wire>::round_trip(1, rest);
            },
            MessageState::Scheduled => {
                <u32 as Wire>::round_trip(2, rest);
            },
        }
    }

    fn write(&self, out: &mut Vec<u8>) {
        let ghost start = out@;
        match self {
            MessageState::Ready => 0u32.write(out),
            MessageState::Deferred => 1u32.write(out),
            MessageState::Scheduled => 2u32.write(out),
            MessageState::Locked { token, locked_until, origin } => {
                3u32.write(out);
                (*token, (*locked_until, *origin)).write(out);
                proof {
                    assert(out@ =~= start + Self::wire(*self));
                }
            },
        }
    }

    fn read(b: &[u8]) -> (taken: Option<(MessageState, &[u8])>) {
        match <u32 as Wire>::read(b) {
            Some((0, rest)) => Some((MessageState::Ready, rest)),
            Some((1, rest)) => Some((MessageState::Deferred, rest)),
            Some((2, rest)) => Some((MessageState::Scheduled, rest)),
            Some((3, rest)) => match <LockFields as Wire>::read(rest) {
                Some(((token, (locked_until, origin)), rest)) => Some(
                    (MessageState::Locked { token, locked_until, origin }, rest),
                ),
                None => None,
            },
            _ => None,
        }
    }
}

impl Wire for DeadLetterReason {
    open spec fn fits(v: DeadLetterReasonView) -> bool {
        v matches DeadLetterReasonView::Application(reason) ==> <String as Wire>::fits(reason)
    }

    open spec fn wire(v: DeadLetterReasonView) -> Seq<u8> {
        match v {
            DeadLetterReasonView::MaxDeliveryCountExceeded => <u32 as Wire>::wire(0),
            DeadLetterReasonView::TimeToLiveExpired => <u32 as Wire>::wire(1),
            DeadLetterReasonView::Application(reason) => {
                <u32 as Wire>::wire(2) + <String as Wire>::wire(reason)
            },
        }
    }

    open spec fn unwire(b: Seq<u8>) -> Option<(DeadLetterReasonView, Seq<u8>)> {
        match <u32 as Wire>::unwire(b) {
            Some((0, rest)) => Some((DeadLetterReasonView::MaxDeliveryCountExceeded, rest)),
            Some((1, rest)) => Some((DeadLetterReasonView::TimeToLiveExpired, rest)),
            Some((2, rest)) => match <String as Wire>::unwire(rest) {
                Some((reason, rest)) => Some((DeadLetterReasonView::Application(reason), rest)),
                None => None,
            },
            _ => None,
        }
    }

    proof fn round_trip(v: DeadLetterReasonView, rest: Seq<u8>) {
        match v {
            DeadLetterReasonView::MaxDeliveryCountExceeded => {
                <u32 as Wire>::round_trip(0, rest);
            },
            DeadLetterReasonView::TimeToLiveExpired => {
                <u32 as Wire>::round_trip(1, rest);
            },
            DeadLetterReasonView::Application(reason) => {
                let body = <String as Wire>::wire(reason);
                <u32 as Wire>::round_trip(2, body + rest);
                <String as Wire>::round_trip(reason, rest);
                assert(Self::wire(v) + rest =~= <u32 as Wire>::wire(2) + (body + rest));
            },
        }
    }

    fn write(&self, out: &mut Vec<u8>) {
        let ghost start = out@;
        match self {
            DeadLetterReason::MaxDeliveryCountExceeded => 0u32.write(out),
            DeadLetterReason::TimeToLiveExpired => 1u32.write(out),
            DeadLetterReason::Application(reason) => {
                2u32.write(out);
                reason.write(out);
                proof {
                    assert(out@ =~= start + Self::wire(self.deep_view()));
                }
            },
        }
    }

    fn read(b: &[u8]) -> (taken: Option<(DeadLetterReason, &[u8])>) {
        match <u32 as Wire>::read(b) {
            Some((0, rest)) => Some((DeadLetterReason::MaxDeliveryCountExceeded, rest)),
            Some((1, rest)) => Some((DeadLetterReason::TimeToLiveExpired, rest)),
            Some((2, rest)) => match <String as Wire>::read(rest) {
                Some((reason, rest)) => Some((DeadLetterReason::Application(reason), rest)),
                None => None,
            },
            _ => None,
        }
    }
}

impl Wire for DeadLetterInfo {
    open spec fn fits(v: DeadLetterInfoView) -> bool {
        <DeadLetterReason as Wire>::fits(v.reason) && <String as Wire>::fits(v.description)
    }

    open spec fn wire(v: DeadLetterInfoView) -> Seq<u8> {
        <(DeadLetterReason, (String, Timestamp)) as Wire>::wire(
            (v.reason, (v.description, v.dead_lettered_at)),
        )
    }

    open spec fn unwire(b: Seq<u8>) -> Option<(DeadLetterInfoView, Seq<u8>)> {
        match <(DeadLetterReason, (String, Timestamp)) as Wire>::unwire(b) {
            Some(((reason, (description, dead_lettered_at)), rest)) => Some(
                (DeadLetterInfoView { reason, description, dead_lettered_at }, rest),
            ),
            None => None,
        }
    }

    proof fn round_trip(v: DeadLetterInfoView, rest: Seq<u8>) {
        <(DeadLetterReason, (String, Timestamp)) as Wire>::round_trip(
            (v.reason, (v.description, v.dead_lettered_at)),
            rest,
        );
    }

    fn write(&self, out: &mut Vec<u8>) {
        let ghost start = out@;
        self.reason.write(out);
        self.description.write(out);
        self.dead_lettered_at.write(out);
        proof {
            assert(out@ =~= start + Self::wire(self.deep_view()));
        }
    }

    fn read(b: &[u8]) -> (taken: Option<(DeadLetterInfo, &[u8])>) {
        match <(DeadLetterReason, (String, Timestamp)) as Wire>::read(b) {
            Some(((reason, (description, dead_lettered_at)), rest)) => Some(
                (DeadLetterInfo { reason, description, dead_lettered_at }, rest),
            ),
            None => None,
        }
    }
}

impl Wire for MessageEnvelope {
    open spec fn fits(v: EnvelopeView) -> bool {
        v.bytes.len() <= usize::MAX && v.filter_properties == rule::no_properties()
    }

    open spec fn wire(v: EnvelopeView) -> Seq<u8> {
        <Vec<u8> as Wire>::wire(v.bytes)
    }

    open spec fn unwire(b: Seq<u8>) -> Option<(EnvelopeView, Seq<u8>)> {
        match <Vec<u8> as Wire>::unwire(b) {
            Some((bytes, rest)) => Some(
                (EnvelopeView { bytes, filter_properties: rule::no_properties() }, rest),
            ),
            None => None,
        }
    }

    proof fn round_trip(v: EnvelopeView, rest: Seq<u8>) {
        <Vec<u8> as Wire>::round_trip(v.bytes, rest);
    }

    fn write(&self, out: &mut Vec<u8>) {
        let ghost start = out@;
        self.bytes.write(out);
        proof {
            assert(self.bytes.deep_view() =~= self.bytes@);
            assert(out@ =~= start + Self::wire(self.deep_view()));
        }
    }

    fn read(b: &[u8]) -> (taken: Option<(MessageEnvelope, &[u8])>) {
        match <Vec<u8> as Wire>::read(b) {
            Some((bytes, rest)) => {
                proof {
                    assert(bytes.deep_view() =~= bytes@);
                }
                Some((MessageEnvelope::new(bytes), rest))
            },
            None => None,
        }
    }
}

pub type RecordHead = (
    SequenceNumber,
    (String, (Vec<u8>, (Timestamp, (Option<Timestamp>, Option<Timestamp>)))),
);

pub type RecordTail = (
    u32,
    (MessageState, (Option<SessionId>, (Option<DeadLetterInfo>, Option<MessageEnvelope>))),
);

pub open spec fn record_head(v: RecordView) -> <RecordHead as DeepView>::V {
    (
        v.sequence,
        (v.message_id, (v.body, (v.enqueued_at, (v.scheduled_enqueue_at, v.expires_at)))),
    )
}

pub open spec fn record_tail(v: RecordView) -> <RecordTail as DeepView>::V {
    (v.delivery_count, (v.state, (v.session_id, (v.dead_letter, v.envelope))))
}

pub open spec fn record_of(
    head: <RecordHead as DeepView>::V,
    tail: <RecordTail as DeepView>::V,
) -> RecordView {
    RecordView {
        sequence: head.0,
        message_id: head.1.0,
        body: head.1.1.0,
        enqueued_at: head.1.1.1.0,
        scheduled_enqueue_at: head.1.1.1.1.0,
        expires_at: head.1.1.1.1.1,
        delivery_count: tail.0,
        state: tail.1.0,
        session_id: tail.1.1.0,
        dead_letter: tail.1.1.1.0,
        envelope: tail.1.1.1.1,
    }
}

#[verifier::opaque]
pub open spec fn head_wire(v: RecordView) -> Seq<u8> {
    <RecordHead as Wire>::wire(record_head(v))
}

#[verifier::opaque]
pub open spec fn tail_wire(v: RecordView) -> Seq<u8> {
    <RecordTail as Wire>::wire(record_tail(v))
}

#[verifier::opaque]
pub open spec fn head_unwire(b: Seq<u8>) -> Option<(<RecordHead as DeepView>::V, Seq<u8>)> {
    <RecordHead as Wire>::unwire(b)
}

#[verifier::opaque]
pub open spec fn tail_unwire(b: Seq<u8>) -> Option<(<RecordTail as DeepView>::V, Seq<u8>)> {
    <RecordTail as Wire>::unwire(b)
}

proof fn head_round_trip(v: RecordView, rest: Seq<u8>)
    requires
        <RecordHead as Wire>::fits(record_head(v)),
    ensures
        head_unwire(head_wire(v) + rest) == Some((record_head(v), rest)),
{
    reveal(head_wire);
    reveal(head_unwire);
    <RecordHead as Wire>::round_trip(record_head(v), rest);
}

proof fn tail_round_trip(v: RecordView, rest: Seq<u8>)
    requires
        <RecordTail as Wire>::fits(record_tail(v)),
    ensures
        tail_unwire(tail_wire(v) + rest) == Some((record_tail(v), rest)),
{
    reveal(tail_wire);
    reveal(tail_unwire);
    <RecordTail as Wire>::round_trip(record_tail(v), rest);
}

fn read_head(b: &[u8]) -> (taken: Option<(RecordHead, &[u8])>)
    ensures
        match taken {
            Some((head, rest)) => head_unwire(b@) == Some((head.deep_view(), rest@)),
            None => head_unwire(b@) is None,
        },
{
    proof {
        reveal(head_unwire);
    }
    <RecordHead as Wire>::read(b)
}

fn read_tail(b: &[u8]) -> (taken: Option<(RecordTail, &[u8])>)
    ensures
        match taken {
            Some((tail, rest)) => tail_unwire(b@) == Some((tail.deep_view(), rest@)),
            None => tail_unwire(b@) is None,
        },
{
    proof {
        reveal(tail_unwire);
    }
    <RecordTail as Wire>::read(b)
}

impl MessageRecord {
    fn write_head(&self, out: &mut Vec<u8>)
        ensures
            final(out)@ == old(out)@ + head_wire(self.deep_view()),
    {
        let ghost start = out@;
        self.sequence.write(out);
        self.message_id.write(out);
        self.body.write(out);
        self.enqueued_at.write(out);
        self.scheduled_enqueue_at.write(out);
        self.expires_at.write(out);
        proof {
            reveal(head_wire);
            assert(self.body.deep_view() =~= self.body@);
            assert(self.scheduled_enqueue_at.deep_view() == self.scheduled_enqueue_at);
            assert(self.expires_at.deep_view() == self.expires_at);
            assert(out@ =~= start + head_wire(self.deep_view()));
        }
    }

    fn write_tail(&self, out: &mut Vec<u8>)
        ensures
            final(out)@ == old(out)@ + tail_wire(self.deep_view()),
    {
        let ghost start = out@;
        self.delivery_count.write(out);
        self.state.write(out);
        self.session_id.write(out);
        self.dead_letter.write(out);
        self.envelope.write(out);
        proof {
            reveal(tail_wire);
            assert(out@ =~= start + tail_wire(self.deep_view()));
        }
    }
}

impl Wire for MessageRecord {
    open spec fn fits(v: RecordView) -> bool {
        <RecordHead as Wire>::fits(record_head(v)) && <RecordTail as Wire>::fits(record_tail(v))
    }

    open spec fn wire(v: RecordView) -> Seq<u8> {
        head_wire(v) + tail_wire(v)
    }

    open spec fn unwire(b: Seq<u8>) -> Option<(RecordView, Seq<u8>)> {
        match head_unwire(b) {
            None => None,
            Some((head, rest)) => match tail_unwire(rest) {
                None => None,
                Some((tail, rest)) => Some((record_of(head, tail), rest)),
            },
        }
    }

    proof fn round_trip(v: RecordView, rest: Seq<u8>) {
        head_round_trip(v, tail_wire(v) + rest);
        tail_round_trip(v, rest);
        assert(Self::wire(v) + rest =~= head_wire(v) + (tail_wire(v) + rest));
    }

    fn write(&self, out: &mut Vec<u8>) {
        let ghost start = out@;
        self.write_head(out);
        self.write_tail(out);
        proof {
            assert(out@ =~= start + Self::wire(self.deep_view()));
        }
    }

    fn read(b: &[u8]) -> (taken: Option<(MessageRecord, &[u8])>) {
        match read_head(b) {
            None => None,
            Some((head, rest)) => match read_tail(rest) {
                None => None,
                Some((tail, rest)) => {
                    let (sequence, (message_id, (body, (enqueued_at, times)))) = head;
                    let (scheduled_enqueue_at, expires_at) = times;
                    let (delivery_count, (state, (session_id, (dead_letter, envelope)))) = tail;
                    proof {
                        assert(body.deep_view() =~= body@);
                        assert(scheduled_enqueue_at.deep_view() == scheduled_enqueue_at);
                        assert(expires_at.deep_view() == expires_at);
                    }
                    Some(
                        (
                            MessageRecord {
                                sequence,
                                message_id,
                                body,
                                enqueued_at,
                                scheduled_enqueue_at,
                                expires_at,
                                delivery_count,
                                state,
                                session_id,
                                dead_letter,
                                envelope,
                            },
                            rest,
                        ),
                    )
                },
            },
        }
    }
}

} // verus!
