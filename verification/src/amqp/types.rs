//! The AMQP 1.0 types that connections exchange.

use vstd::prelude::*;

use crate::amqp::entries::{Key, OrderedMap};
use crate::amqp::fields::Copied;
use crate::amqp::value::{AmqpValue, Symbol, ValueView};

verus! {

/// What names a delivery on its link.
pub type DeliveryTag = Vec<u8>;

/// Open-ended fields, by their names.
pub type Fields = OrderedMap<Symbol, AmqpValue>;

/// The filters of a source, by their names.
pub type FilterSet = OrderedMap<Symbol, AmqpValue>;

/// The deliveries that a link left unsettled, by their tags.
pub type Unsettled = OrderedMap<DeliveryTag, Option<DeliveryState>>;

pub type FieldsView = Seq<(Seq<char>, ValueView)>;

pub type UnsettledView = Seq<(Seq<u8>, Option<DeliveryStateView>)>;

/// Which end of a link its peer is.
#[derive(Clone, Copy, Debug, PartialEq, Eq, Structural)]
pub enum Role {
    Sender,
    Receiver,
}

impl DeepView for Role {
    type V = Role;

    open spec fn deep_view(&self) -> Role {
        *self
    }
}

impl Copied for Role {
    fn copied(&self) -> (copy: Self) {
        *self
    }
}

/// How a sender settles its deliveries.
#[derive(Clone, Copy, Debug, PartialEq, Eq, Structural)]
pub enum SenderSettleMode {
    Settled,
    Unsettled,
    Mixed,
}

impl DeepView for SenderSettleMode {
    type V = SenderSettleMode;

    open spec fn deep_view(&self) -> SenderSettleMode {
        *self
    }
}

impl Copied for SenderSettleMode {
    fn copied(&self) -> (copy: Self) {
        *self
    }
}

impl Default for SenderSettleMode {
    fn default() -> (made: Self)
        ensures
            made == SenderSettleMode::Mixed,
    {
        SenderSettleMode::Mixed
    }
}

/// Which end settles a delivery last.
#[derive(Clone, Copy, Debug, PartialEq, Eq, Structural)]
pub enum ReceiverSettleMode {
    First,
    Second,
}

impl DeepView for ReceiverSettleMode {
    type V = ReceiverSettleMode;

    open spec fn deep_view(&self) -> ReceiverSettleMode {
        *self
    }
}

impl Copied for ReceiverSettleMode {
    fn copied(&self) -> (copy: Self) {
        *self
    }
}

impl Default for ReceiverSettleMode {
    fn default() -> (made: Self)
        ensures
            made == ReceiverSettleMode::First,
    {
        ReceiverSettleMode::First
    }
}

/// The error conditions that AMQP itself names.
#[derive(Clone, Copy, Debug, PartialEq, Eq, Structural)]
pub enum AmqpError {
    InternalError,
    NotFound,
    UnauthorizedAccess,
    DecodeError,
    ResourceLimitExceeded,
    NotAllowed,
    InvalidField,
    NotImplemented,
    ResourceLocked,
    PreconditionFailed,
    ResourceDeleted,
    IllegalState,
    FrameSizeTooSmall,
}

impl DeepView for AmqpError {
    type V = AmqpError;

    open spec fn deep_view(&self) -> AmqpError {
        *self
    }
}

impl Copied for AmqpError {
    fn copied(&self) -> (copy: Self) {
        *self
    }
}

/// How a SASL exchange ended.
#[derive(Clone, Copy, Debug, PartialEq, Eq, Structural)]
pub enum SaslCode {
    Success,
    Auth,
    Sys,
    SysPerm,
    SysTemp,
}

impl DeepView for SaslCode {
    type V = SaslCode;

    open spec fn deep_view(&self) -> SaslCode {
        *self
    }
}

impl Copied for SaslCode {
    fn copied(&self) -> (copy: Self) {
        *self
    }
}

/// Why a link, session, connection or delivery was refused.
#[derive(Debug, PartialEq, Eq)]
pub struct Error {
    pub condition: ErrorCondition,
    pub description: Option<String>,
    pub info: Option<Fields>,
}

pub struct ErrorView {
    pub condition: ErrorConditionView,
    pub description: Option<Seq<char>>,
    pub info: Option<FieldsView>,
}

impl DeepView for Error {
    type V = ErrorView;

    open spec fn deep_view(&self) -> ErrorView {
        ErrorView {
            condition: self.condition.deep_view(),
            description: self.description.deep_view(),
            info: self.info.deep_view(),
        }
    }
}

impl Copied for Error {
    fn copied(&self) -> (copy: Self) {
        Error {
            condition: self.condition.copied(),
            description: self.description.copied(),
            info: self.info.copied(),
        }
    }
}

impl Clone for Error {
    fn clone(&self) -> (copy: Self)
        ensures
            copy.deep_view() == self.deep_view(),
    {
        self.copied()
    }
}

/// The outcome of a delivery that was modified and not processed.
#[derive(Debug, PartialEq, Eq)]
pub struct Modified {
    pub delivery_failed: Option<bool>,
    pub undeliverable_here: Option<bool>,
    pub message_annotations: Option<Fields>,
}

pub struct ModifiedView {
    pub delivery_failed: Option<bool>,
    pub undeliverable_here: Option<bool>,
    pub message_annotations: Option<FieldsView>,
}

impl DeepView for Modified {
    type V = ModifiedView;

    open spec fn deep_view(&self) -> ModifiedView {
        ModifiedView {
            delivery_failed: self.delivery_failed.deep_view(),
            undeliverable_here: self.undeliverable_here.deep_view(),
            message_annotations: self.message_annotations.deep_view(),
        }
    }
}

impl Copied for Modified {
    fn copied(&self) -> (copy: Self) {
        Modified {
            delivery_failed: self.delivery_failed.copied(),
            undeliverable_here: self.undeliverable_here.copied(),
            message_annotations: self.message_annotations.copied(),
        }
    }
}

impl Clone for Modified {
    fn clone(&self) -> (copy: Self)
        ensures
            copy.deep_view() == self.deep_view(),
    {
        self.copied()
    }
}

impl Default for Modified {
    fn default() -> (made: Self)
        ensures
            made.deep_view() == (ModifiedView {
                delivery_failed: None,
                undeliverable_here: None,
                message_annotations: None,
            }),
    {
        Modified {
            delivery_failed: None,
            undeliverable_here: None,
            message_annotations: None,
        }
    }
}

/// The outcome of a delivery that is invalid.
#[derive(Debug, PartialEq, Eq)]
pub struct Rejected {
    pub error: Option<Error>,
}

pub struct RejectedView {
    pub error: Option<ErrorView>,
}

impl DeepView for Rejected {
    type V = RejectedView;

    open spec fn deep_view(&self) -> RejectedView {
        RejectedView {
            error: self.error.deep_view(),
        }
    }
}

impl Copied for Rejected {
    fn copied(&self) -> (copy: Self) {
        Rejected {
            error: self.error.copied(),
        }
    }
}

impl Clone for Rejected {
    fn clone(&self) -> (copy: Self)
        ensures
            copy.deep_view() == self.deep_view(),
    {
        self.copied()
    }
}

impl Default for Rejected {
    fn default() -> (made: Self)
        ensures
            made.deep_view() == (RejectedView {
                error: None,
            }),
    {
        Rejected {
            error: None,
        }
    }
}

/// Where the messages of a link come from.
#[derive(Debug, PartialEq, Eq)]
pub struct Source {
    pub address: Option<String>,
    pub durable: u32,
    pub expiry_policy: Option<Symbol>,
    pub timeout: u32,
    pub dynamic: bool,
    pub dynamic_node_properties: Option<Fields>,
    pub distribution_mode: Option<Symbol>,
    pub filter: Option<FilterSet>,
    pub default_outcome: Option<DeliveryState>,
    pub outcomes: Option<Vec<Symbol>>,
    pub capabilities: Option<Vec<Symbol>>,
}

pub struct SourceView {
    pub address: Option<Seq<char>>,
    pub durable: u32,
    pub expiry_policy: Option<Seq<char>>,
    pub timeout: u32,
    pub dynamic: bool,
    pub dynamic_node_properties: Option<FieldsView>,
    pub distribution_mode: Option<Seq<char>>,
    pub filter: Option<FieldsView>,
    pub default_outcome: Option<DeliveryStateView>,
    pub outcomes: Option<Seq<Seq<char>>>,
    pub capabilities: Option<Seq<Seq<char>>>,
}

impl DeepView for Source {
    type V = SourceView;

    open spec fn deep_view(&self) -> SourceView {
        SourceView {
            address: self.address.deep_view(),
            durable: self.durable.deep_view(),
            expiry_policy: self.expiry_policy.deep_view(),
            timeout: self.timeout.deep_view(),
            dynamic: self.dynamic.deep_view(),
            dynamic_node_properties: self.dynamic_node_properties.deep_view(),
            distribution_mode: self.distribution_mode.deep_view(),
            filter: self.filter.deep_view(),
            default_outcome: self.default_outcome.deep_view(),
            outcomes: self.outcomes.deep_view(),
            capabilities: self.capabilities.deep_view(),
        }
    }
}

impl Copied for Source {
    fn copied(&self) -> (copy: Self) {
        Source {
            address: self.address.copied(),
            durable: self.durable.copied(),
            expiry_policy: self.expiry_policy.copied(),
            timeout: self.timeout.copied(),
            dynamic: self.dynamic.copied(),
            dynamic_node_properties: self.dynamic_node_properties.copied(),
            distribution_mode: self.distribution_mode.copied(),
            filter: self.filter.copied(),
            default_outcome: self.default_outcome.copied(),
            outcomes: self.outcomes.copied(),
            capabilities: self.capabilities.copied(),
        }
    }
}

impl Clone for Source {
    fn clone(&self) -> (copy: Self)
        ensures
            copy.deep_view() == self.deep_view(),
    {
        self.copied()
    }
}

impl Default for Source {
    fn default() -> (made: Self)
        ensures
            made.deep_view() == (SourceView {
                address: None,
                durable: 0,
                expiry_policy: None,
                timeout: 0,
                dynamic: false,
                dynamic_node_properties: None,
                distribution_mode: None,
                filter: None,
                default_outcome: None,
                outcomes: None,
                capabilities: None,
            }),
    {
        Source {
            address: None,
            durable: 0,
            expiry_policy: None,
            timeout: 0,
            dynamic: false,
            dynamic_node_properties: None,
            distribution_mode: None,
            filter: None,
            default_outcome: None,
            outcomes: None,
            capabilities: None,
        }
    }
}

/// Where the messages of a link go.
#[derive(Debug, PartialEq, Eq)]
pub struct Target {
    pub address: Option<String>,
    pub durable: u32,
    pub expiry_policy: Option<Symbol>,
    pub timeout: u32,
    pub dynamic: bool,
    pub dynamic_node_properties: Option<Fields>,
    pub capabilities: Option<Vec<Symbol>>,
}

pub struct TargetView {
    pub address: Option<Seq<char>>,
    pub durable: u32,
    pub expiry_policy: Option<Seq<char>>,
    pub timeout: u32,
    pub dynamic: bool,
    pub dynamic_node_properties: Option<FieldsView>,
    pub capabilities: Option<Seq<Seq<char>>>,
}

impl DeepView for Target {
    type V = TargetView;

    open spec fn deep_view(&self) -> TargetView {
        TargetView {
            address: self.address.deep_view(),
            durable: self.durable.deep_view(),
            expiry_policy: self.expiry_policy.deep_view(),
            timeout: self.timeout.deep_view(),
            dynamic: self.dynamic.deep_view(),
            dynamic_node_properties: self.dynamic_node_properties.deep_view(),
            capabilities: self.capabilities.deep_view(),
        }
    }
}

impl Copied for Target {
    fn copied(&self) -> (copy: Self) {
        Target {
            address: self.address.copied(),
            durable: self.durable.copied(),
            expiry_policy: self.expiry_policy.copied(),
            timeout: self.timeout.copied(),
            dynamic: self.dynamic.copied(),
            dynamic_node_properties: self.dynamic_node_properties.copied(),
            capabilities: self.capabilities.copied(),
        }
    }
}

impl Clone for Target {
    fn clone(&self) -> (copy: Self)
        ensures
            copy.deep_view() == self.deep_view(),
    {
        self.copied()
    }
}

impl Default for Target {
    fn default() -> (made: Self)
        ensures
            made.deep_view() == (TargetView {
                address: None,
                durable: 0,
                expiry_policy: None,
                timeout: 0,
                dynamic: false,
                dynamic_node_properties: None,
                capabilities: None,
            }),
    {
        Target {
            address: None,
            durable: 0,
            expiry_policy: None,
            timeout: 0,
            dynamic: false,
            dynamic_node_properties: None,
            capabilities: None,
        }
    }
}

/// Negotiates a connection.
#[derive(Debug, PartialEq, Eq)]
pub struct Open {
    pub container_id: String,
    pub hostname: Option<String>,
    pub max_frame_size: u32,
    pub channel_max: u16,
    pub idle_time_out: Option<u32>,
    pub outgoing_locales: Option<Vec<Symbol>>,
    pub incoming_locales: Option<Vec<Symbol>>,
    pub offered_capabilities: Option<Vec<Symbol>>,
    pub desired_capabilities: Option<Vec<Symbol>>,
    pub properties: Option<Fields>,
}

pub struct OpenView {
    pub container_id: Seq<char>,
    pub hostname: Option<Seq<char>>,
    pub max_frame_size: u32,
    pub channel_max: u16,
    pub idle_time_out: Option<u32>,
    pub outgoing_locales: Option<Seq<Seq<char>>>,
    pub incoming_locales: Option<Seq<Seq<char>>>,
    pub offered_capabilities: Option<Seq<Seq<char>>>,
    pub desired_capabilities: Option<Seq<Seq<char>>>,
    pub properties: Option<FieldsView>,
}

impl DeepView for Open {
    type V = OpenView;

    open spec fn deep_view(&self) -> OpenView {
        OpenView {
            container_id: self.container_id.deep_view(),
            hostname: self.hostname.deep_view(),
            max_frame_size: self.max_frame_size.deep_view(),
            channel_max: self.channel_max.deep_view(),
            idle_time_out: self.idle_time_out.deep_view(),
            outgoing_locales: self.outgoing_locales.deep_view(),
            incoming_locales: self.incoming_locales.deep_view(),
            offered_capabilities: self.offered_capabilities.deep_view(),
            desired_capabilities: self.desired_capabilities.deep_view(),
            properties: self.properties.deep_view(),
        }
    }
}

impl Copied for Open {
    fn copied(&self) -> (copy: Self) {
        Open {
            container_id: self.container_id.copied(),
            hostname: self.hostname.copied(),
            max_frame_size: self.max_frame_size.copied(),
            channel_max: self.channel_max.copied(),
            idle_time_out: self.idle_time_out.copied(),
            outgoing_locales: self.outgoing_locales.copied(),
            incoming_locales: self.incoming_locales.copied(),
            offered_capabilities: self.offered_capabilities.copied(),
            desired_capabilities: self.desired_capabilities.copied(),
            properties: self.properties.copied(),
        }
    }
}

impl Clone for Open {
    fn clone(&self) -> (copy: Self)
        ensures
            copy.deep_view() == self.deep_view(),
    {
        self.copied()
    }
}

/// Begins a session on a channel.
#[derive(Debug, PartialEq, Eq)]
pub struct Begin {
    pub remote_channel: Option<u16>,
    pub next_outgoing_id: u32,
    pub incoming_window: u32,
    pub outgoing_window: u32,
    pub handle_max: u32,
    pub offered_capabilities: Option<Vec<Symbol>>,
    pub desired_capabilities: Option<Vec<Symbol>>,
    pub properties: Option<Fields>,
}

pub struct BeginView {
    pub remote_channel: Option<u16>,
    pub next_outgoing_id: u32,
    pub incoming_window: u32,
    pub outgoing_window: u32,
    pub handle_max: u32,
    pub offered_capabilities: Option<Seq<Seq<char>>>,
    pub desired_capabilities: Option<Seq<Seq<char>>>,
    pub properties: Option<FieldsView>,
}

impl DeepView for Begin {
    type V = BeginView;

    open spec fn deep_view(&self) -> BeginView {
        BeginView {
            remote_channel: self.remote_channel.deep_view(),
            next_outgoing_id: self.next_outgoing_id.deep_view(),
            incoming_window: self.incoming_window.deep_view(),
            outgoing_window: self.outgoing_window.deep_view(),
            handle_max: self.handle_max.deep_view(),
            offered_capabilities: self.offered_capabilities.deep_view(),
            desired_capabilities: self.desired_capabilities.deep_view(),
            properties: self.properties.deep_view(),
        }
    }
}

impl Copied for Begin {
    fn copied(&self) -> (copy: Self) {
        Begin {
            remote_channel: self.remote_channel.copied(),
            next_outgoing_id: self.next_outgoing_id.copied(),
            incoming_window: self.incoming_window.copied(),
            outgoing_window: self.outgoing_window.copied(),
            handle_max: self.handle_max.copied(),
            offered_capabilities: self.offered_capabilities.copied(),
            desired_capabilities: self.desired_capabilities.copied(),
            properties: self.properties.copied(),
        }
    }
}

impl Clone for Begin {
    fn clone(&self) -> (copy: Self)
        ensures
            copy.deep_view() == self.deep_view(),
    {
        self.copied()
    }
}

impl Default for Begin {
    fn default() -> (made: Self)
        ensures
            made.deep_view() == (BeginView {
                remote_channel: None,
                next_outgoing_id: 0,
                incoming_window: 2048,
                outgoing_window: 2048,
                handle_max: u32::MAX,
                offered_capabilities: None,
                desired_capabilities: None,
                properties: None,
            }),
    {
        Begin {
            remote_channel: None,
            next_outgoing_id: 0,
            incoming_window: 2048,
            outgoing_window: 2048,
            handle_max: u32::MAX,
            offered_capabilities: None,
            desired_capabilities: None,
            properties: None,
        }
    }
}

/// Attaches a link to a session.
#[derive(Debug, PartialEq, Eq)]
pub struct Attach {
    pub name: String,
    pub handle: u32,
    pub role: Role,
    pub snd_settle_mode: SenderSettleMode,
    pub rcv_settle_mode: ReceiverSettleMode,
    pub source: Option<Source>,
    pub target: Option<Target>,
    pub unsettled: Option<Unsettled>,
    pub incomplete_unsettled: bool,
    pub initial_delivery_count: Option<u32>,
    pub max_message_size: Option<u64>,
    pub offered_capabilities: Option<Vec<Symbol>>,
    pub desired_capabilities: Option<Vec<Symbol>>,
    pub properties: Option<Fields>,
}

pub struct AttachView {
    pub name: Seq<char>,
    pub handle: u32,
    pub role: Role,
    pub snd_settle_mode: SenderSettleMode,
    pub rcv_settle_mode: ReceiverSettleMode,
    pub source: Option<SourceView>,
    pub target: Option<TargetView>,
    pub unsettled: Option<UnsettledView>,
    pub incomplete_unsettled: bool,
    pub initial_delivery_count: Option<u32>,
    pub max_message_size: Option<u64>,
    pub offered_capabilities: Option<Seq<Seq<char>>>,
    pub desired_capabilities: Option<Seq<Seq<char>>>,
    pub properties: Option<FieldsView>,
}

impl DeepView for Attach {
    type V = AttachView;

    open spec fn deep_view(&self) -> AttachView {
        AttachView {
            name: self.name.deep_view(),
            handle: self.handle.deep_view(),
            role: self.role.deep_view(),
            snd_settle_mode: self.snd_settle_mode.deep_view(),
            rcv_settle_mode: self.rcv_settle_mode.deep_view(),
            source: self.source.deep_view(),
            target: self.target.deep_view(),
            unsettled: self.unsettled.deep_view(),
            incomplete_unsettled: self.incomplete_unsettled.deep_view(),
            initial_delivery_count: self.initial_delivery_count.deep_view(),
            max_message_size: self.max_message_size.deep_view(),
            offered_capabilities: self.offered_capabilities.deep_view(),
            desired_capabilities: self.desired_capabilities.deep_view(),
            properties: self.properties.deep_view(),
        }
    }
}

impl Copied for Attach {
    fn copied(&self) -> (copy: Self) {
        Attach {
            name: self.name.copied(),
            handle: self.handle.copied(),
            role: self.role.copied(),
            snd_settle_mode: self.snd_settle_mode.copied(),
            rcv_settle_mode: self.rcv_settle_mode.copied(),
            source: self.source.copied(),
            target: self.target.copied(),
            unsettled: self.unsettled.copied(),
            incomplete_unsettled: self.incomplete_unsettled.copied(),
            initial_delivery_count: self.initial_delivery_count.copied(),
            max_message_size: self.max_message_size.copied(),
            offered_capabilities: self.offered_capabilities.copied(),
            desired_capabilities: self.desired_capabilities.copied(),
            properties: self.properties.copied(),
        }
    }
}

impl Clone for Attach {
    fn clone(&self) -> (copy: Self)
        ensures
            copy.deep_view() == self.deep_view(),
    {
        self.copied()
    }
}

/// Updates the flow state of a session or link.
#[derive(Debug, PartialEq, Eq)]
pub struct Flow {
    pub next_incoming_id: Option<u32>,
    pub incoming_window: u32,
    pub next_outgoing_id: u32,
    pub outgoing_window: u32,
    pub handle: Option<u32>,
    pub delivery_count: Option<u32>,
    pub link_credit: Option<u32>,
    pub available: Option<u32>,
    pub drain: bool,
    pub echo: bool,
    pub properties: Option<Fields>,
}

pub struct FlowView {
    pub next_incoming_id: Option<u32>,
    pub incoming_window: u32,
    pub next_outgoing_id: u32,
    pub outgoing_window: u32,
    pub handle: Option<u32>,
    pub delivery_count: Option<u32>,
    pub link_credit: Option<u32>,
    pub available: Option<u32>,
    pub drain: bool,
    pub echo: bool,
    pub properties: Option<FieldsView>,
}

impl DeepView for Flow {
    type V = FlowView;

    open spec fn deep_view(&self) -> FlowView {
        FlowView {
            next_incoming_id: self.next_incoming_id.deep_view(),
            incoming_window: self.incoming_window.deep_view(),
            next_outgoing_id: self.next_outgoing_id.deep_view(),
            outgoing_window: self.outgoing_window.deep_view(),
            handle: self.handle.deep_view(),
            delivery_count: self.delivery_count.deep_view(),
            link_credit: self.link_credit.deep_view(),
            available: self.available.deep_view(),
            drain: self.drain.deep_view(),
            echo: self.echo.deep_view(),
            properties: self.properties.deep_view(),
        }
    }
}

impl Copied for Flow {
    fn copied(&self) -> (copy: Self) {
        Flow {
            next_incoming_id: self.next_incoming_id.copied(),
            incoming_window: self.incoming_window.copied(),
            next_outgoing_id: self.next_outgoing_id.copied(),
            outgoing_window: self.outgoing_window.copied(),
            handle: self.handle.copied(),
            delivery_count: self.delivery_count.copied(),
            link_credit: self.link_credit.copied(),
            available: self.available.copied(),
            drain: self.drain.copied(),
            echo: self.echo.copied(),
            properties: self.properties.copied(),
        }
    }
}

impl Clone for Flow {
    fn clone(&self) -> (copy: Self)
        ensures
            copy.deep_view() == self.deep_view(),
    {
        self.copied()
    }
}

impl Default for Flow {
    fn default() -> (made: Self)
        ensures
            made.deep_view() == (FlowView {
                next_incoming_id: None,
                incoming_window: 0,
                next_outgoing_id: 0,
                outgoing_window: 0,
                handle: None,
                delivery_count: None,
                link_credit: None,
                available: None,
                drain: false,
                echo: false,
                properties: None,
            }),
    {
        Flow {
            next_incoming_id: None,
            incoming_window: 0,
            next_outgoing_id: 0,
            outgoing_window: 0,
            handle: None,
            delivery_count: None,
            link_credit: None,
            available: None,
            drain: false,
            echo: false,
            properties: None,
        }
    }
}

/// Carries a message, or a part of one.
#[derive(Debug, PartialEq, Eq)]
pub struct Transfer {
    pub handle: u32,
    pub delivery_id: Option<u32>,
    pub delivery_tag: Option<DeliveryTag>,
    pub message_format: Option<u32>,
    pub settled: Option<bool>,
    pub more: bool,
    pub rcv_settle_mode: Option<ReceiverSettleMode>,
    pub state: Option<DeliveryState>,
    pub resume: bool,
    pub aborted: bool,
    pub batchable: bool,
}

pub struct TransferView {
    pub handle: u32,
    pub delivery_id: Option<u32>,
    pub delivery_tag: Option<Seq<u8>>,
    pub message_format: Option<u32>,
    pub settled: Option<bool>,
    pub more: bool,
    pub rcv_settle_mode: Option<ReceiverSettleMode>,
    pub state: Option<DeliveryStateView>,
    pub resume: bool,
    pub aborted: bool,
    pub batchable: bool,
}

impl DeepView for Transfer {
    type V = TransferView;

    open spec fn deep_view(&self) -> TransferView {
        TransferView {
            handle: self.handle.deep_view(),
            delivery_id: self.delivery_id.deep_view(),
            delivery_tag: self.delivery_tag.deep_view(),
            message_format: self.message_format.deep_view(),
            settled: self.settled.deep_view(),
            more: self.more.deep_view(),
            rcv_settle_mode: self.rcv_settle_mode.deep_view(),
            state: self.state.deep_view(),
            resume: self.resume.deep_view(),
            aborted: self.aborted.deep_view(),
            batchable: self.batchable.deep_view(),
        }
    }
}

impl Copied for Transfer {
    fn copied(&self) -> (copy: Self) {
        Transfer {
            handle: self.handle.copied(),
            delivery_id: self.delivery_id.copied(),
            delivery_tag: self.delivery_tag.copied(),
            message_format: self.message_format.copied(),
            settled: self.settled.copied(),
            more: self.more.copied(),
            rcv_settle_mode: self.rcv_settle_mode.copied(),
            state: self.state.copied(),
            resume: self.resume.copied(),
            aborted: self.aborted.copied(),
            batchable: self.batchable.copied(),
        }
    }
}

impl Clone for Transfer {
    fn clone(&self) -> (copy: Self)
        ensures
            copy.deep_view() == self.deep_view(),
    {
        self.copied()
    }
}

/// Tells the peer how deliveries ended.
#[derive(Debug, PartialEq, Eq)]
pub struct Disposition {
    pub role: Role,
    pub first: u32,
    pub last: Option<u32>,
    pub settled: bool,
    pub state: Option<DeliveryState>,
    pub batchable: bool,
}

pub struct DispositionView {
    pub role: Role,
    pub first: u32,
    pub last: Option<u32>,
    pub settled: bool,
    pub state: Option<DeliveryStateView>,
    pub batchable: bool,
}

impl DeepView for Disposition {
    type V = DispositionView;

    open spec fn deep_view(&self) -> DispositionView {
        DispositionView {
            role: self.role.deep_view(),
            first: self.first.deep_view(),
            last: self.last.deep_view(),
            settled: self.settled.deep_view(),
            state: self.state.deep_view(),
            batchable: self.batchable.deep_view(),
        }
    }
}

impl Copied for Disposition {
    fn copied(&self) -> (copy: Self) {
        Disposition {
            role: self.role.copied(),
            first: self.first.copied(),
            last: self.last.copied(),
            settled: self.settled.copied(),
            state: self.state.copied(),
            batchable: self.batchable.copied(),
        }
    }
}

impl Clone for Disposition {
    fn clone(&self) -> (copy: Self)
        ensures
            copy.deep_view() == self.deep_view(),
    {
        self.copied()
    }
}

/// Detaches a link.
#[derive(Debug, PartialEq, Eq)]
pub struct Detach {
    pub handle: u32,
    pub closed: bool,
    pub error: Option<Error>,
}

pub struct DetachView {
    pub handle: u32,
    pub closed: bool,
    pub error: Option<ErrorView>,
}

impl DeepView for Detach {
    type V = DetachView;

    open spec fn deep_view(&self) -> DetachView {
        DetachView {
            handle: self.handle.deep_view(),
            closed: self.closed.deep_view(),
            error: self.error.deep_view(),
        }
    }
}

impl Copied for Detach {
    fn copied(&self) -> (copy: Self) {
        Detach {
            handle: self.handle.copied(),
            closed: self.closed.copied(),
            error: self.error.copied(),
        }
    }
}

impl Clone for Detach {
    fn clone(&self) -> (copy: Self)
        ensures
            copy.deep_view() == self.deep_view(),
    {
        self.copied()
    }
}

/// Ends a session.
#[derive(Debug, PartialEq, Eq)]
pub struct End {
    pub error: Option<Error>,
}

pub struct EndView {
    pub error: Option<ErrorView>,
}

impl DeepView for End {
    type V = EndView;

    open spec fn deep_view(&self) -> EndView {
        EndView {
            error: self.error.deep_view(),
        }
    }
}

impl Copied for End {
    fn copied(&self) -> (copy: Self) {
        End {
            error: self.error.copied(),
        }
    }
}

impl Clone for End {
    fn clone(&self) -> (copy: Self)
        ensures
            copy.deep_view() == self.deep_view(),
    {
        self.copied()
    }
}

impl Default for End {
    fn default() -> (made: Self)
        ensures
            made.deep_view() == (EndView {
                error: None,
            }),
    {
        End {
            error: None,
        }
    }
}

/// Closes a connection.
#[derive(Debug, PartialEq, Eq)]
pub struct Close {
    pub error: Option<Error>,
}

pub struct CloseView {
    pub error: Option<ErrorView>,
}

impl DeepView for Close {
    type V = CloseView;

    open spec fn deep_view(&self) -> CloseView {
        CloseView {
            error: self.error.deep_view(),
        }
    }
}

impl Copied for Close {
    fn copied(&self) -> (copy: Self) {
        Close {
            error: self.error.copied(),
        }
    }
}

impl Clone for Close {
    fn clone(&self) -> (copy: Self)
        ensures
            copy.deep_view() == self.deep_view(),
    {
        self.copied()
    }
}

impl Default for Close {
    fn default() -> (made: Self)
        ensures
            made.deep_view() == (CloseView {
                error: None,
            }),
    {
        Close {
            error: None,
        }
    }
}

/// The transport header of a message.
#[derive(Debug, PartialEq, Eq)]
pub struct Header {
    pub durable: bool,
    pub priority: u8,
    pub ttl: Option<u32>,
    pub first_acquirer: bool,
    pub delivery_count: u32,
}

pub struct HeaderView {
    pub durable: bool,
    pub priority: u8,
    pub ttl: Option<u32>,
    pub first_acquirer: bool,
    pub delivery_count: u32,
}

impl DeepView for Header {
    type V = HeaderView;

    open spec fn deep_view(&self) -> HeaderView {
        HeaderView {
            durable: self.durable.deep_view(),
            priority: self.priority.deep_view(),
            ttl: self.ttl.deep_view(),
            first_acquirer: self.first_acquirer.deep_view(),
            delivery_count: self.delivery_count.deep_view(),
        }
    }
}

impl Copied for Header {
    fn copied(&self) -> (copy: Self) {
        Header {
            durable: self.durable.copied(),
            priority: self.priority.copied(),
            ttl: self.ttl.copied(),
            first_acquirer: self.first_acquirer.copied(),
            delivery_count: self.delivery_count.copied(),
        }
    }
}

impl Clone for Header {
    fn clone(&self) -> (copy: Self)
        ensures
            copy.deep_view() == self.deep_view(),
    {
        self.copied()
    }
}

impl Default for Header {
    fn default() -> (made: Self)
        ensures
            made.deep_view() == (HeaderView {
                durable: false,
                priority: 0,
                ttl: None,
                first_acquirer: false,
                delivery_count: 0,
            }),
    {
        Header {
            durable: false,
            priority: 0,
            ttl: None,
            first_acquirer: false,
            delivery_count: 0,
        }
    }
}

/// The immutable properties of a message.
#[derive(Debug, PartialEq, Eq)]
pub struct Properties {
    pub message_id: Option<MessageId>,
    pub user_id: Option<Vec<u8>>,
    pub to: Option<String>,
    pub subject: Option<String>,
    pub reply_to: Option<String>,
    pub correlation_id: Option<MessageId>,
    pub content_type: Option<Symbol>,
    pub content_encoding: Option<Symbol>,
    pub absolute_expiry_time: Option<i64>,
    pub creation_time: Option<i64>,
    pub group_id: Option<String>,
    pub group_sequence: Option<u32>,
    pub reply_to_group_id: Option<String>,
}

pub struct PropertiesView {
    pub message_id: Option<MessageIdView>,
    pub user_id: Option<Seq<u8>>,
    pub to: Option<Seq<char>>,
    pub subject: Option<Seq<char>>,
    pub reply_to: Option<Seq<char>>,
    pub correlation_id: Option<MessageIdView>,
    pub content_type: Option<Seq<char>>,
    pub content_encoding: Option<Seq<char>>,
    pub absolute_expiry_time: Option<i64>,
    pub creation_time: Option<i64>,
    pub group_id: Option<Seq<char>>,
    pub group_sequence: Option<u32>,
    pub reply_to_group_id: Option<Seq<char>>,
}

impl DeepView for Properties {
    type V = PropertiesView;

    open spec fn deep_view(&self) -> PropertiesView {
        PropertiesView {
            message_id: self.message_id.deep_view(),
            user_id: self.user_id.deep_view(),
            to: self.to.deep_view(),
            subject: self.subject.deep_view(),
            reply_to: self.reply_to.deep_view(),
            correlation_id: self.correlation_id.deep_view(),
            content_type: self.content_type.deep_view(),
            content_encoding: self.content_encoding.deep_view(),
            absolute_expiry_time: self.absolute_expiry_time.deep_view(),
            creation_time: self.creation_time.deep_view(),
            group_id: self.group_id.deep_view(),
            group_sequence: self.group_sequence.deep_view(),
            reply_to_group_id: self.reply_to_group_id.deep_view(),
        }
    }
}

impl Copied for Properties {
    fn copied(&self) -> (copy: Self) {
        Properties {
            message_id: self.message_id.copied(),
            user_id: self.user_id.copied(),
            to: self.to.copied(),
            subject: self.subject.copied(),
            reply_to: self.reply_to.copied(),
            correlation_id: self.correlation_id.copied(),
            content_type: self.content_type.copied(),
            content_encoding: self.content_encoding.copied(),
            absolute_expiry_time: self.absolute_expiry_time.copied(),
            creation_time: self.creation_time.copied(),
            group_id: self.group_id.copied(),
            group_sequence: self.group_sequence.copied(),
            reply_to_group_id: self.reply_to_group_id.copied(),
        }
    }
}

impl Clone for Properties {
    fn clone(&self) -> (copy: Self)
        ensures
            copy.deep_view() == self.deep_view(),
    {
        self.copied()
    }
}

impl Default for Properties {
    fn default() -> (made: Self)
        ensures
            made.deep_view() == (PropertiesView {
                message_id: None,
                user_id: None,
                to: None,
                subject: None,
                reply_to: None,
                correlation_id: None,
                content_type: None,
                content_encoding: None,
                absolute_expiry_time: None,
                creation_time: None,
                group_id: None,
                group_sequence: None,
                reply_to_group_id: None,
            }),
    {
        Properties {
            message_id: None,
            user_id: None,
            to: None,
            subject: None,
            reply_to: None,
            correlation_id: None,
            content_type: None,
            content_encoding: None,
            absolute_expiry_time: None,
            creation_time: None,
            group_id: None,
            group_sequence: None,
            reply_to_group_id: None,
        }
    }
}

/// The SASL mechanisms that a server offers.
#[derive(Debug, PartialEq, Eq)]
pub struct SaslMechanisms {
    pub mechanisms: Vec<Symbol>,
}

pub struct SaslMechanismsView {
    pub mechanisms: Seq<Seq<char>>,
}

impl DeepView for SaslMechanisms {
    type V = SaslMechanismsView;

    open spec fn deep_view(&self) -> SaslMechanismsView {
        SaslMechanismsView {
            mechanisms: self.mechanisms.deep_view(),
        }
    }
}

impl Copied for SaslMechanisms {
    fn copied(&self) -> (copy: Self) {
        SaslMechanisms {
            mechanisms: self.mechanisms.copied(),
        }
    }
}

impl Clone for SaslMechanisms {
    fn clone(&self) -> (copy: Self)
        ensures
            copy.deep_view() == self.deep_view(),
    {
        self.copied()
    }
}

/// The SASL mechanism that a client chose.
#[derive(Debug, PartialEq, Eq)]
pub struct SaslInit {
    pub mechanism: Symbol,
    pub initial_response: Option<Vec<u8>>,
    pub hostname: Option<String>,
}

pub struct SaslInitView {
    pub mechanism: Seq<char>,
    pub initial_response: Option<Seq<u8>>,
    pub hostname: Option<Seq<char>>,
}

impl DeepView for SaslInit {
    type V = SaslInitView;

    open spec fn deep_view(&self) -> SaslInitView {
        SaslInitView {
            mechanism: self.mechanism.deep_view(),
            initial_response: self.initial_response.deep_view(),
            hostname: self.hostname.deep_view(),
        }
    }
}

impl Copied for SaslInit {
    fn copied(&self) -> (copy: Self) {
        SaslInit {
            mechanism: self.mechanism.copied(),
            initial_response: self.initial_response.copied(),
            hostname: self.hostname.copied(),
        }
    }
}

impl Clone for SaslInit {
    fn clone(&self) -> (copy: Self)
        ensures
            copy.deep_view() == self.deep_view(),
    {
        self.copied()
    }
}

/// A SASL challenge.
#[derive(Debug, PartialEq, Eq)]
pub struct SaslChallenge {
    pub challenge: Vec<u8>,
}

pub struct SaslChallengeView {
    pub challenge: Seq<u8>,
}

impl DeepView for SaslChallenge {
    type V = SaslChallengeView;

    open spec fn deep_view(&self) -> SaslChallengeView {
        SaslChallengeView {
            challenge: self.challenge.deep_view(),
        }
    }
}

impl Copied for SaslChallenge {
    fn copied(&self) -> (copy: Self) {
        SaslChallenge {
            challenge: self.challenge.copied(),
        }
    }
}

impl Clone for SaslChallenge {
    fn clone(&self) -> (copy: Self)
        ensures
            copy.deep_view() == self.deep_view(),
    {
        self.copied()
    }
}

/// The response to a SASL challenge.
#[derive(Debug, PartialEq, Eq)]
pub struct SaslResponse {
    pub response: Vec<u8>,
}

pub struct SaslResponseView {
    pub response: Seq<u8>,
}

impl DeepView for SaslResponse {
    type V = SaslResponseView;

    open spec fn deep_view(&self) -> SaslResponseView {
        SaslResponseView {
            response: self.response.deep_view(),
        }
    }
}

impl Copied for SaslResponse {
    fn copied(&self) -> (copy: Self) {
        SaslResponse {
            response: self.response.copied(),
        }
    }
}

impl Clone for SaslResponse {
    fn clone(&self) -> (copy: Self)
        ensures
            copy.deep_view() == self.deep_view(),
    {
        self.copied()
    }
}

/// The end of a SASL exchange.
#[derive(Debug, PartialEq, Eq)]
pub struct SaslOutcome {
    pub code: SaslCode,
    pub additional_data: Option<Vec<u8>>,
}

pub struct SaslOutcomeView {
    pub code: SaslCode,
    pub additional_data: Option<Seq<u8>>,
}

impl DeepView for SaslOutcome {
    type V = SaslOutcomeView;

    open spec fn deep_view(&self) -> SaslOutcomeView {
        SaslOutcomeView {
            code: self.code.deep_view(),
            additional_data: self.additional_data.deep_view(),
        }
    }
}

impl Copied for SaslOutcome {
    fn copied(&self) -> (copy: Self) {
        SaslOutcome {
            code: self.code.copied(),
            additional_data: self.additional_data.copied(),
        }
    }
}

impl Clone for SaslOutcome {
    fn clone(&self) -> (copy: Self)
        ensures
            copy.deep_view() == self.deep_view(),
    {
        self.copied()
    }
}

/// Why something was refused.
#[derive(Debug, PartialEq, Eq)]
pub enum ErrorCondition {
    Amqp(AmqpError),
    Custom(Symbol),
}

pub enum ErrorConditionView {
    Amqp(AmqpError),
    Custom(Seq<char>),
}

impl DeepView for ErrorCondition {
    type V = ErrorConditionView;

    open spec fn deep_view(&self) -> ErrorConditionView {
        match self {
            ErrorCondition::Amqp(condition) => ErrorConditionView::Amqp(*condition),
            ErrorCondition::Custom(condition) => ErrorConditionView::Custom(condition.deep_view()),
        }
    }
}

impl Copied for ErrorCondition {
    fn copied(&self) -> (copy: Self) {
        match self {
            ErrorCondition::Amqp(condition) => ErrorCondition::Amqp(*condition),
            ErrorCondition::Custom(condition) => ErrorCondition::Custom(condition.clone()),
        }
    }
}

/// The outcome of a delivery that was processed.
#[derive(Clone, Copy, Debug, PartialEq, Eq, Structural)]
pub struct Accepted;

impl Default for Accepted {
    fn default() -> (made: Self)
        ensures
            made == Accepted,
    {
        Accepted
    }
}

/// The outcome of a delivery that was not processed.
#[derive(Clone, Copy, Debug, PartialEq, Eq, Structural)]
pub struct Released;

impl Default for Released {
    fn default() -> (made: Self)
        ensures
            made == Released,
    {
        Released
    }
}

/// How far a delivery has come at its receiver.
#[derive(Debug, PartialEq, Eq)]
pub enum DeliveryState {
    Received { section_number: u32, section_offset: u64 },
    Accepted(Accepted),
    Rejected(Rejected),
    Released(Released),
    Modified(Modified),
}

pub enum DeliveryStateView {
    Received { section_number: u32, section_offset: u64 },
    Accepted,
    Rejected(RejectedView),
    Released,
    Modified(ModifiedView),
}

impl DeepView for DeliveryState {
    type V = DeliveryStateView;

    open spec fn deep_view(&self) -> DeliveryStateView {
        match self {
            DeliveryState::Received {
                section_number,
                section_offset,
            } => DeliveryStateView::Received {
                section_number: *section_number,
                section_offset: *section_offset,
            },
            DeliveryState::Accepted(_) => DeliveryStateView::Accepted,
            DeliveryState::Rejected(rejected) => DeliveryStateView::Rejected(rejected.deep_view()),
            DeliveryState::Released(_) => DeliveryStateView::Released,
            DeliveryState::Modified(modified) => DeliveryStateView::Modified(modified.deep_view()),
        }
    }
}

impl Copied for DeliveryState {
    fn copied(&self) -> (copy: Self) {
        match self {
            DeliveryState::Received { section_number, section_offset } => DeliveryState::Received {
                section_number: *section_number,
                section_offset: *section_offset,
            },
            DeliveryState::Accepted(_) => DeliveryState::Accepted(Accepted),
            DeliveryState::Rejected(rejected) => DeliveryState::Rejected(rejected.copied()),
            DeliveryState::Released(_) => DeliveryState::Released(Released),
            DeliveryState::Modified(modified) => DeliveryState::Modified(modified.copied()),
        }
    }
}

impl Clone for DeliveryState {
    fn clone(&self) -> (copy: Self)
        ensures
            copy.deep_view() == self.deep_view(),
    {
        self.copied()
    }
}

impl DeliveryState {
    /// Whether nothing follows this state.
    pub fn is_terminal(&self) -> (yes: bool)
        ensures
            yes == !(self.deep_view() is Received),
    {
        match self {
            DeliveryState::Received { .. } => false,
            _ => true,
        }
    }
}

/// How a delivery ended.
#[derive(Debug, PartialEq, Eq)]
pub enum Outcome {
    Accepted(Accepted),
    Rejected(Rejected),
    Released(Released),
    Modified(Modified),
}

impl DeepView for Outcome {
    type V = DeliveryStateView;

    open spec fn deep_view(&self) -> DeliveryStateView {
        match self {
            Outcome::Accepted(_) => DeliveryStateView::Accepted,
            Outcome::Rejected(rejected) => DeliveryStateView::Rejected(rejected.deep_view()),
            Outcome::Released(_) => DeliveryStateView::Released,
            Outcome::Modified(modified) => DeliveryStateView::Modified(modified.deep_view()),
        }
    }
}

impl Copied for Outcome {
    fn copied(&self) -> (copy: Self) {
        match self {
            Outcome::Accepted(_) => Outcome::Accepted(Accepted),
            Outcome::Rejected(rejected) => Outcome::Rejected(rejected.copied()),
            Outcome::Released(_) => Outcome::Released(Released),
            Outcome::Modified(modified) => Outcome::Modified(modified.copied()),
        }
    }
}

impl Clone for Outcome {
    fn clone(&self) -> (copy: Self)
        ensures
            copy.deep_view() == self.deep_view(),
    {
        self.copied()
    }
}

impl Outcome {
    /// The outcome that a delivery state is, or the state if it is none.
    pub fn try_from_state(state: DeliveryState) -> (outcome: Result<Outcome, DeliveryState>)
        ensures
            match outcome {
                Ok(outcome) => !(state.deep_view() is Received) && outcome.deep_view()
                    == state.deep_view(),
                Err(other) => state.deep_view() is Received && other == state,
            },
    {
        match state {
            DeliveryState::Accepted(value) => Ok(Outcome::Accepted(value)),
            DeliveryState::Rejected(value) => Ok(Outcome::Rejected(value)),
            DeliveryState::Released(value) => Ok(Outcome::Released(value)),
            DeliveryState::Modified(value) => Ok(Outcome::Modified(value)),
            other => Err(other),
        }
    }

    /// The delivery state that an outcome is.
    pub fn state(&self) -> (state: DeliveryState)
        ensures
            state.deep_view() == self.deep_view(),
    {
        match self {
            Outcome::Accepted(value) => DeliveryState::Accepted(*value),
            Outcome::Rejected(value) => DeliveryState::Rejected(value.copied()),
            Outcome::Released(value) => DeliveryState::Released(*value),
            Outcome::Modified(value) => DeliveryState::Modified(value.copied()),
        }
    }
}

/// What identifies a message.
#[derive(Debug, PartialEq, Eq)]
pub enum MessageId {
    Ulong(u64),
    Uuid([u8; 16]),
    Binary(Vec<u8>),
    String(String),
}

pub enum MessageIdView {
    Ulong(u64),
    Uuid(Seq<u8>),
    Binary(Seq<u8>),
    String(Seq<char>),
}

impl DeepView for MessageId {
    type V = MessageIdView;

    open spec fn deep_view(&self) -> MessageIdView {
        match self {
            MessageId::Ulong(id) => MessageIdView::Ulong(*id),
            MessageId::Uuid(id) => MessageIdView::Uuid(id@),
            MessageId::Binary(id) => MessageIdView::Binary(id@),
            MessageId::String(id) => MessageIdView::String(id@),
        }
    }
}

impl Copied for MessageId {
    fn copied(&self) -> (copy: Self) {
        match self {
            MessageId::Ulong(id) => MessageId::Ulong(*id),
            MessageId::Uuid(id) => MessageId::Uuid(*id),
            MessageId::Binary(id) => MessageId::Binary(crate::bytes::copy_bytes(id.as_slice())),
            MessageId::String(id) => MessageId::String(id.clone()),
        }
    }
}

/// A frame's performative.
#[derive(Debug, PartialEq, Eq)]
pub enum Performative {
    Open(Open),
    Begin(Begin),
    Attach(Box<Attach>),
    Flow(Flow),
    Transfer(Transfer),
    Disposition(Disposition),
    Detach(Detach),
    End(End),
    Close(Close),
}

pub enum PerformativeView {
    Open(OpenView),
    Begin(BeginView),
    Attach(AttachView),
    Flow(FlowView),
    Transfer(TransferView),
    Disposition(DispositionView),
    Detach(DetachView),
    End(EndView),
    Close(CloseView),
}

impl DeepView for Performative {
    type V = PerformativeView;

    open spec fn deep_view(&self) -> PerformativeView {
        match self {
            Performative::Open(p) => PerformativeView::Open(p.deep_view()),
            Performative::Begin(p) => PerformativeView::Begin(p.deep_view()),
            Performative::Attach(p) => PerformativeView::Attach((*p).deep_view()),
            Performative::Flow(p) => PerformativeView::Flow(p.deep_view()),
            Performative::Transfer(p) => PerformativeView::Transfer(p.deep_view()),
            Performative::Disposition(p) => PerformativeView::Disposition(p.deep_view()),
            Performative::Detach(p) => PerformativeView::Detach(p.deep_view()),
            Performative::End(p) => PerformativeView::End(p.deep_view()),
            Performative::Close(p) => PerformativeView::Close(p.deep_view()),
        }
    }
}

/// A SASL frame's performative.
#[derive(Debug, PartialEq, Eq)]
pub enum SaslPerformative {
    Mechanisms(SaslMechanisms),
    Init(SaslInit),
    Challenge(SaslChallenge),
    Response(SaslResponse),
    Outcome(SaslOutcome),
}

pub enum SaslView {
    Mechanisms(SaslMechanismsView),
    Init(SaslInitView),
    Challenge(SaslChallengeView),
    Response(SaslResponseView),
    Outcome(SaslOutcomeView),
}

impl DeepView for SaslPerformative {
    type V = SaslView;

    open spec fn deep_view(&self) -> SaslView {
        match self {
            SaslPerformative::Mechanisms(p) => SaslView::Mechanisms(p.deep_view()),
            SaslPerformative::Init(p) => SaslView::Init(p.deep_view()),
            SaslPerformative::Challenge(p) => SaslView::Challenge(p.deep_view()),
            SaslPerformative::Response(p) => SaslView::Response(p.deep_view()),
            SaslPerformative::Outcome(p) => SaslView::Outcome(p.deep_view()),
        }
    }
}

impl Role {
    /// The other end of a link.
    pub fn opposite(&self) -> (other: Role)
        ensures
            other == opposite(*self),
    {
        match self {
            Role::Sender => Role::Receiver,
            Role::Receiver => Role::Sender,
        }
    }
}

pub open spec fn opposite(role: Role) -> Role {
    match role {
        Role::Sender => Role::Receiver,
        Role::Receiver => Role::Sender,
    }
}

/// The ends of a link are opposite to each other.
pub proof fn the_opposite_of_the_opposite_is_the_same(role: Role)
    ensures
        opposite(opposite(role)) == role,
        opposite(role) != role,
{
}

// ---- error conditions ------------------------------------------------------

/// The symbol of an error condition.
pub open spec fn error_text(error: AmqpError) -> Seq<char> {
    match error {
        AmqpError::InternalError => "amqp:internal-error"@,
        AmqpError::NotFound => "amqp:not-found"@,
        AmqpError::UnauthorizedAccess => "amqp:unauthorized-access"@,
        AmqpError::DecodeError => "amqp:decode-error"@,
        AmqpError::ResourceLimitExceeded => "amqp:resource-limit-exceeded"@,
        AmqpError::NotAllowed => "amqp:not-allowed"@,
        AmqpError::InvalidField => "amqp:invalid-field"@,
        AmqpError::NotImplemented => "amqp:not-implemented"@,
        AmqpError::ResourceLocked => "amqp:resource-locked"@,
        AmqpError::PreconditionFailed => "amqp:precondition-failed"@,
        AmqpError::ResourceDeleted => "amqp:resource-deleted"@,
        AmqpError::IllegalState => "amqp:illegal-state"@,
        AmqpError::FrameSizeTooSmall => "amqp:frame-size-too-small"@,
    }
}

/// The error condition that a symbol names, if it names one.
pub open spec fn named_error(text: Seq<char>) -> Option<AmqpError> {
    if text == "amqp:internal-error"@ {
        Some(AmqpError::InternalError)
    } else if text == "amqp:not-found"@ {
        Some(AmqpError::NotFound)
    } else if text == "amqp:unauthorized-access"@ {
        Some(AmqpError::UnauthorizedAccess)
    } else if text == "amqp:decode-error"@ {
        Some(AmqpError::DecodeError)
    } else if text == "amqp:resource-limit-exceeded"@ {
        Some(AmqpError::ResourceLimitExceeded)
    } else if text == "amqp:not-allowed"@ {
        Some(AmqpError::NotAllowed)
    } else if text == "amqp:invalid-field"@ {
        Some(AmqpError::InvalidField)
    } else if text == "amqp:not-implemented"@ {
        Some(AmqpError::NotImplemented)
    } else if text == "amqp:resource-locked"@ {
        Some(AmqpError::ResourceLocked)
    } else if text == "amqp:precondition-failed"@ {
        Some(AmqpError::PreconditionFailed)
    } else if text == "amqp:resource-deleted"@ {
        Some(AmqpError::ResourceDeleted)
    } else if text == "amqp:illegal-state"@ {
        Some(AmqpError::IllegalState)
    } else if text == "amqp:frame-size-too-small"@ {
        Some(AmqpError::FrameSizeTooSmall)
    } else {
        None
    }
}

/// Every error condition is told by its symbol.
pub proof fn an_error_condition_is_told_by_its_symbol(error: AmqpError)
    ensures
        named_error(error_text(error)) == Some(error),
{
    reveal_strlit("amqp:internal-error");
    reveal_strlit("amqp:not-found");
    reveal_strlit("amqp:unauthorized-access");
    reveal_strlit("amqp:decode-error");
    reveal_strlit("amqp:resource-limit-exceeded");
    reveal_strlit("amqp:not-allowed");
    reveal_strlit("amqp:invalid-field");
    reveal_strlit("amqp:not-implemented");
    reveal_strlit("amqp:resource-locked");
    reveal_strlit("amqp:precondition-failed");
    reveal_strlit("amqp:resource-deleted");
    reveal_strlit("amqp:illegal-state");
    reveal_strlit("amqp:frame-size-too-small");
    assert("amqp:internal-error"@.len() == 19);
    assert("amqp:not-found"@.len() == 14);
    assert("amqp:unauthorized-access"@.len() == 24);
    assert("amqp:decode-error"@.len() == 17);
    assert("amqp:resource-limit-exceeded"@.len() == 28);
    assert("amqp:not-allowed"@.len() == 16);
    assert("amqp:invalid-field"@.len() == 18);
    assert("amqp:not-implemented"@.len() == 20);
    assert("amqp:resource-locked"@.len() == 20);
    assert("amqp:precondition-failed"@.len() == 24);
    assert("amqp:resource-deleted"@.len() == 21);
    assert("amqp:illegal-state"@.len() == 18);
    assert("amqp:frame-size-too-small"@.len() == 25);
    // Symbols of the same length differ in one of these places.
    assert("amqp:unauthorized-access"@[5] != "amqp:precondition-failed"@[5]);
    assert("amqp:not-implemented"@[5] != "amqp:resource-locked"@[5]);
    assert("amqp:invalid-field"@[6] != "amqp:illegal-state"@[6]);
}

impl AmqpError {
    pub fn as_str(&self) -> (text: &'static str)
        ensures
            text@ == error_text(*self),
    {
        match self {
            AmqpError::InternalError => "amqp:internal-error",
            AmqpError::NotFound => "amqp:not-found",
            AmqpError::UnauthorizedAccess => "amqp:unauthorized-access",
            AmqpError::DecodeError => "amqp:decode-error",
            AmqpError::ResourceLimitExceeded => "amqp:resource-limit-exceeded",
            AmqpError::NotAllowed => "amqp:not-allowed",
            AmqpError::InvalidField => "amqp:invalid-field",
            AmqpError::NotImplemented => "amqp:not-implemented",
            AmqpError::ResourceLocked => "amqp:resource-locked",
            AmqpError::PreconditionFailed => "amqp:precondition-failed",
            AmqpError::ResourceDeleted => "amqp:resource-deleted",
            AmqpError::IllegalState => "amqp:illegal-state",
            AmqpError::FrameSizeTooSmall => "amqp:frame-size-too-small",
        }
    }

    pub fn from_symbol(symbol: &str) -> (error: Option<AmqpError>)
        ensures
            error == named_error(symbol@),
    {
        if crate::bytes::same_text(symbol, "amqp:internal-error") {
            Some(AmqpError::InternalError)
        } else if crate::bytes::same_text(symbol, "amqp:not-found") {
            Some(AmqpError::NotFound)
        } else if crate::bytes::same_text(symbol, "amqp:unauthorized-access") {
            Some(AmqpError::UnauthorizedAccess)
        } else if crate::bytes::same_text(symbol, "amqp:decode-error") {
            Some(AmqpError::DecodeError)
        } else if crate::bytes::same_text(symbol, "amqp:resource-limit-exceeded") {
            Some(AmqpError::ResourceLimitExceeded)
        } else if crate::bytes::same_text(symbol, "amqp:not-allowed") {
            Some(AmqpError::NotAllowed)
        } else if crate::bytes::same_text(symbol, "amqp:invalid-field") {
            Some(AmqpError::InvalidField)
        } else if crate::bytes::same_text(symbol, "amqp:not-implemented") {
            Some(AmqpError::NotImplemented)
        } else if crate::bytes::same_text(symbol, "amqp:resource-locked") {
            Some(AmqpError::ResourceLocked)
        } else if crate::bytes::same_text(symbol, "amqp:precondition-failed") {
            Some(AmqpError::PreconditionFailed)
        } else if crate::bytes::same_text(symbol, "amqp:resource-deleted") {
            Some(AmqpError::ResourceDeleted)
        } else if crate::bytes::same_text(symbol, "amqp:illegal-state") {
            Some(AmqpError::IllegalState)
        } else if crate::bytes::same_text(symbol, "amqp:frame-size-too-small") {
            Some(AmqpError::FrameSizeTooSmall)
        } else {
            None
        }
    }
}

/// The symbol of a condition.
pub open spec fn condition_text(condition: ErrorConditionView) -> Seq<char> {
    match condition {
        ErrorConditionView::Amqp(error) => error_text(error),
        ErrorConditionView::Custom(text) => text,
    }
}

impl ErrorCondition {
    pub fn as_symbol(&self) -> (symbol: Symbol)
        ensures
            symbol.deep_view() == condition_text(self.deep_view()),
    {
        match self {
            ErrorCondition::Amqp(condition) => Symbol::new(condition.as_str()),
            ErrorCondition::Custom(condition) => condition.clone(),
        }
    }
}

impl From<AmqpError> for ErrorCondition {
    fn from(condition: AmqpError) -> (made: ErrorCondition) {
        ErrorCondition::Amqp(condition)
    }
}

impl vstd::std_specs::convert::FromSpecImpl<AmqpError> for ErrorCondition {
    open spec fn obeys_from_spec() -> bool {
        true
    }

    open spec fn from_spec(condition: AmqpError) -> ErrorCondition {
        ErrorCondition::Amqp(condition)
    }
}

impl From<String> for MessageId {
    fn from(text: String) -> (made: MessageId) {
        MessageId::String(text)
    }
}

impl vstd::std_specs::convert::FromSpecImpl<String> for MessageId {
    open spec fn obeys_from_spec() -> bool {
        true
    }

    open spec fn from_spec(text: String) -> MessageId {
        MessageId::String(text)
    }
}

impl Error {
    pub fn new(condition: ErrorCondition, description: String, info: Option<Fields>) -> (error:
        Error)
        ensures
            error.deep_view() == (ErrorView {
                condition: condition.deep_view(),
                description: Some(description@),
                info: info.deep_view(),
            }),
    {
        Error { condition, description: Some(description), info }
    }

    /// The condition, and the description behind a colon.
    pub fn describe(&self) -> (text: String)
        ensures
            text@ == error_description(self.deep_view()),
    {
        let mut text = self.condition.as_symbol().0;
        if let Some(description) = &self.description {
            text.append(": ");
            text.append(description.as_str());
        }
        text
    }
}

pub open spec fn error_description(error: ErrorView) -> Seq<char> {
    match error.description {
        None => condition_text(error.condition),
        Some(description) => condition_text(error.condition) + ": "@ + description,
    }
}

impl From<String> for Source {
    fn from(address: String) -> (made: Source) {
        Source {
            address: Some(address),
            durable: 0,
            expiry_policy: None,
            timeout: 0,
            dynamic: false,
            dynamic_node_properties: None,
            distribution_mode: None,
            filter: None,
            default_outcome: None,
            outcomes: None,
            capabilities: None,
        }
    }
}

impl vstd::std_specs::convert::FromSpecImpl<String> for Source {
    open spec fn obeys_from_spec() -> bool {
        true
    }

    open spec fn from_spec(address: String) -> Source {
        Source {
            address: Some(address),
            durable: 0,
            expiry_policy: None,
            timeout: 0,
            dynamic: false,
            dynamic_node_properties: None,
            distribution_mode: None,
            filter: None,
            default_outcome: None,
            outcomes: None,
            capabilities: None,
        }
    }
}

impl Source {
    pub fn new(address: String) -> (source: Source)
        ensures
            source.deep_view() == (SourceView {
                address: Some(address@),
                durable: 0,
                expiry_policy: None,
                timeout: 0,
                dynamic: false,
                dynamic_node_properties: None,
                distribution_mode: None,
                filter: None,
                default_outcome: None,
                outcomes: None,
                capabilities: None,
            }),
    {
        let mut source = Source::default();
        source.address = Some(address);
        source
    }

    pub fn builder() -> (builder: SourceBuilder)
        ensures
            builder.0.deep_view() == (SourceView {
                address: None,
                durable: 0,
                expiry_policy: None,
                timeout: 0,
                dynamic: false,
                dynamic_node_properties: None,
                distribution_mode: None,
                filter: None,
                default_outcome: None,
                outcomes: None,
                capabilities: None,
            }),
    {
        SourceBuilder(Source::default())
    }
}

/// Builds a source.
pub struct SourceBuilder(pub Source);

impl SourceBuilder {
    pub fn address(self, address: String) -> (builder: SourceBuilder)
        ensures
            builder.0.deep_view() == (SourceView {
                address: Some(address@),
                ..self.0.deep_view()
            }),
    {
        let mut source = self.0;
        source.address = Some(address);
        SourceBuilder(source)
    }

    pub fn filter(self, filter: FilterSet) -> (builder: SourceBuilder)
        ensures
            builder.0.deep_view() == (SourceView {
                filter: Some(filter.deep_view()),
                ..self.0.deep_view()
            }),
    {
        let mut source = self.0;
        source.filter = Some(filter);
        SourceBuilder(source)
    }

    pub fn build(self) -> (source: Source)
        ensures
            source == self.0,
    {
        self.0
    }
}

impl Target {
    pub fn new(address: String) -> (target: Target)
        ensures
            target.deep_view() == (TargetView {
                address: Some(address@),
                durable: 0,
                expiry_policy: None,
                timeout: 0,
                dynamic: false,
                dynamic_node_properties: None,
                capabilities: None,
            }),
    {
        let mut target = Target::default();
        target.address = Some(address);
        target
    }
}

/// The frame size that a peer accepts unless it says otherwise.
pub const DEFAULT_MAX_FRAME_SIZE: u32 = 262_144;

pub open spec fn opening(container_id: Seq<char>) -> OpenView {
    OpenView {
        container_id,
        hostname: None,
        max_frame_size: DEFAULT_MAX_FRAME_SIZE,
        channel_max: u16::MAX,
        idle_time_out: None,
        outgoing_locales: None,
        incoming_locales: None,
        offered_capabilities: None,
        desired_capabilities: None,
        properties: None,
    }
}

impl Open {
    pub fn new(container_id: String) -> (open: Open)
        ensures
            open.deep_view() == opening(container_id@),
    {
        Open {
            container_id,
            hostname: None,
            max_frame_size: DEFAULT_MAX_FRAME_SIZE,
            channel_max: u16::MAX,
            idle_time_out: None,
            outgoing_locales: None,
            incoming_locales: None,
            offered_capabilities: None,
            desired_capabilities: None,
            properties: None,
        }
    }
}

/// What answers an attach, from the other end of the link.
pub open spec fn attach_response(
    attach: AttachView,
    source: Option<SourceView>,
    target: Option<TargetView>,
) -> AttachView {
    AttachView {
        name: attach.name,
        handle: attach.handle,
        role: opposite(attach.role),
        snd_settle_mode: attach.snd_settle_mode,
        rcv_settle_mode: attach.rcv_settle_mode,
        source,
        target,
        unsettled: None,
        incomplete_unsettled: false,
        initial_delivery_count: if attach.role == Role::Receiver {
            Some(0)
        } else {
            None
        },
        max_message_size: attach.max_message_size,
        offered_capabilities: None,
        desired_capabilities: None,
        properties: None,
    }
}

impl Attach {
    pub fn response(&self, source: Option<Source>, target: Option<Target>) -> (response: Attach)
        ensures
            response.deep_view() == attach_response(
                self.deep_view(),
                source.deep_view(),
                target.deep_view(),
            ),
    {
        Attach {
            name: self.name.clone(),
            handle: self.handle,
            role: self.role.opposite(),
            snd_settle_mode: self.snd_settle_mode,
            rcv_settle_mode: self.rcv_settle_mode,
            source,
            target,
            unsettled: None,
            incomplete_unsettled: false,
            initial_delivery_count: match self.role {
                Role::Receiver => Some(0),
                Role::Sender => None,
            },
            max_message_size: self.max_message_size,
            offered_capabilities: None,
            desired_capabilities: None,
            properties: None,
        }
    }
}

// ---- messages --------------------------------------------------------------

/// What names an annotation.
#[derive(Debug, PartialEq, Eq)]
pub enum AnnotationKey {
    Symbol(Symbol),
    Ulong(u64),
}

pub enum AnnotationKeyView {
    Symbol(Seq<char>),
    Ulong(u64),
}

impl DeepView for AnnotationKey {
    type V = AnnotationKeyView;

    open spec fn deep_view(&self) -> AnnotationKeyView {
        match self {
            AnnotationKey::Symbol(key) => AnnotationKeyView::Symbol(key.deep_view()),
            AnnotationKey::Ulong(key) => AnnotationKeyView::Ulong(*key),
        }
    }
}

impl Copied for AnnotationKey {
    fn copied(&self) -> (copy: Self) {
        match self {
            AnnotationKey::Symbol(key) => AnnotationKey::Symbol(key.clone()),
            AnnotationKey::Ulong(key) => AnnotationKey::Ulong(*key),
        }
    }
}

impl Key for AnnotationKey {
    fn same(&self, other: &Self) -> (same: bool) {
        match (self, other) {
            (AnnotationKey::Symbol(a), AnnotationKey::Symbol(b)) => a.same(b),
            (AnnotationKey::Ulong(a), AnnotationKey::Ulong(b)) => *a == *b,
            _ => false,
        }
    }
}

/// Annotations of a message or delivery, by their keys.
pub type Annotations = OrderedMap<AnnotationKey, AmqpValue>;

pub type AnnotationsView = Seq<(AnnotationKeyView, ValueView)>;

/// The properties that an application gave a message.
pub type PropertiesMap = OrderedMap<String, AmqpValue>;

#[derive(Debug, PartialEq, Eq)]
pub struct ApplicationProperties(pub PropertiesMap);

impl DeepView for ApplicationProperties {
    type V = FieldsView;

    open spec fn deep_view(&self) -> FieldsView {
        self.0.deep_view()
    }
}

impl Copied for ApplicationProperties {
    fn copied(&self) -> (copy: Self) {
        ApplicationProperties(self.0.copied())
    }
}

impl Default for ApplicationProperties {
    fn default() -> (made: Self)
        ensures
            made.deep_view() == Seq::<(Seq<char>, ValueView)>::empty(),
    {
        ApplicationProperties(OrderedMap::new())
    }
}

impl ApplicationProperties {
    pub fn get(&self, name: &str) -> (value: Option<&AmqpValue>)
        ensures
            match value {
                Some(value) => crate::amqp::entries::looked_up(self.deep_view(), name@) == Some(
                    value.deep_view(),
                ),
                None => crate::amqp::entries::looked_up(self.deep_view(), name@) is None,
            },
    {
        self.0.get(&name.to_owned())
    }

    pub fn insert(&mut self, name: String, value: AmqpValue)
        ensures
            final(self).deep_view() == crate::amqp::entries::inserted(
                old(self).deep_view(),
                name@,
                value.deep_view(),
            ),
    {
        self.0.insert(name, value);
    }

    pub fn builder() -> (builder: ApplicationPropertiesBuilder)
        ensures
            builder.0.deep_view() == Seq::<(Seq<char>, ValueView)>::empty(),
    {
        ApplicationPropertiesBuilder(ApplicationProperties::default())
    }
}

/// Builds application properties.
pub struct ApplicationPropertiesBuilder(pub ApplicationProperties);

impl ApplicationPropertiesBuilder {
    pub fn insert(self, name: String, value: AmqpValue) -> (builder: ApplicationPropertiesBuilder)
        ensures
            builder.0.deep_view() == crate::amqp::entries::inserted(
                self.0.deep_view(),
                name@,
                value.deep_view(),
            ),
    {
        let mut properties = self.0;
        properties.insert(name, value);
        ApplicationPropertiesBuilder(properties)
    }

    pub fn build(self) -> (properties: ApplicationProperties)
        ensures
            properties == self.0,
    {
        self.0
    }
}

/// What a message carries.
#[derive(Debug, PartialEq, Eq)]
pub enum Body {
    Data(Vec<Vec<u8>>),
    Sequence(Vec<Vec<AmqpValue>>),
    Single(AmqpValue),
    Empty,
}

pub enum BodyView {
    Data(Seq<Seq<u8>>),
    Sequence(Seq<Seq<ValueView>>),
    Single(ValueView),
    Empty,
}

impl DeepView for Body {
    type V = BodyView;

    open spec fn deep_view(&self) -> BodyView {
        match self {
            Body::Data(sections) => BodyView::Data(sections.deep_view()),
            Body::Sequence(sections) => BodyView::Sequence(sequences(sections@)),
            Body::Single(value) => BodyView::Single(value.deep_view()),
            Body::Empty => BodyView::Empty,
        }
    }
}

/// The sections of a sequence body.
pub open spec fn sequences(sections: Seq<Vec<AmqpValue>>) -> Seq<Seq<ValueView>> {
    Seq::new(sections.len(), |i: int| crate::amqp::value::meanings(sections[i]@))
}

impl Copied for Body {
    #[verifier::loop_isolation(false)]
    fn copied(&self) -> (copy: Self) {
        match self {
            Body::Data(sections) => Body::Data(crate::amqp::fields::copy_all(sections)),
            Body::Sequence(sections) => {
                let mut copies: Vec<Vec<AmqpValue>> = Vec::new();
                let mut i: usize = 0;
                while i < sections.len()
                    invariant
                        i <= sections@.len(),
                        copies@.len() == i,
                        forall|k: int|
                            0 <= k < i ==> crate::amqp::value::meanings((#[trigger] copies@[k])@)
                                == crate::amqp::value::meanings(sections@[k]@),
                    decreases sections@.len() - i,
                {
                    copies.push(crate::amqp::value::copy_values(&sections[i]));
                    i = i + 1;
                }
                proof {
                    assert(sequences(copies@) =~= sequences(sections@));
                }
                Body::Sequence(copies)
            },
            Body::Single(value) => Body::Single(value.copied()),
            Body::Empty => Body::Empty,
        }
    }
}

impl Default for Body {
    fn default() -> (made: Self)
        ensures
            made == Body::Empty,
    {
        Body::Empty
    }
}

/// A message.
#[derive(Debug, PartialEq, Eq)]
pub struct Message {
    pub header: Option<Header>,
    pub delivery_annotations: Option<Annotations>,
    pub message_annotations: Option<Annotations>,
    pub properties: Option<Properties>,
    pub application_properties: Option<ApplicationProperties>,
    pub body: Body,
    pub footer: Option<Annotations>,
}

pub struct MessageView {
    pub header: Option<HeaderView>,
    pub delivery_annotations: Option<AnnotationsView>,
    pub message_annotations: Option<AnnotationsView>,
    pub properties: Option<PropertiesView>,
    pub application_properties: Option<FieldsView>,
    pub body: BodyView,
    pub footer: Option<AnnotationsView>,
}

impl DeepView for Message {
    type V = MessageView;

    open spec fn deep_view(&self) -> MessageView {
        MessageView {
            header: self.header.deep_view(),
            delivery_annotations: self.delivery_annotations.deep_view(),
            message_annotations: self.message_annotations.deep_view(),
            properties: self.properties.deep_view(),
            application_properties: self.application_properties.deep_view(),
            body: self.body.deep_view(),
            footer: self.footer.deep_view(),
        }
    }
}

impl Copied for Message {
    fn copied(&self) -> (copy: Self) {
        Message {
            header: self.header.copied(),
            delivery_annotations: self.delivery_annotations.copied(),
            message_annotations: self.message_annotations.copied(),
            properties: self.properties.copied(),
            application_properties: self.application_properties.copied(),
            body: self.body.copied(),
            footer: self.footer.copied(),
        }
    }
}

impl Clone for Message {
    fn clone(&self) -> (copy: Self)
        ensures
            copy.deep_view() == self.deep_view(),
    {
        self.copied()
    }
}

/// A message with nothing in it.
pub open spec fn no_message() -> MessageView {
    MessageView {
        header: None,
        delivery_annotations: None,
        message_annotations: None,
        properties: None,
        application_properties: None,
        body: BodyView::Empty,
        footer: None,
    }
}

impl Default for Message {
    fn default() -> (made: Self)
        ensures
            made.deep_view() == no_message(),
    {
        Message {
            header: None,
            delivery_annotations: None,
            message_annotations: None,
            properties: None,
            application_properties: None,
            body: Body::Empty,
            footer: None,
        }
    }
}

impl Message {
    /// A message with one data section.
    pub fn data(octets: Vec<u8>) -> (message: Message)
        ensures
            message.deep_view() == (MessageView {
                body: BodyView::Data(seq![octets@]),
                ..no_message()
            }),
    {
        let mut message = Message::default();
        let mut sections: Vec<Vec<u8>> = Vec::new();
        let ghost octets_view = octets@;
        sections.push(octets);
        proof {
            assert(sections@[0].deep_view() =~= octets_view);
            assert(sections.deep_view() =~= seq![octets_view]);
        }
        message.body = Body::Data(sections);
        message
    }

    pub fn builder() -> (builder: MessageBuilder)
        ensures
            builder.0.deep_view() == no_message(),
    {
        MessageBuilder(Message::default())
    }
}

/// Builds a message.
pub struct MessageBuilder(pub Message);

impl MessageBuilder {
    pub fn properties(self, properties: Properties) -> (builder: MessageBuilder)
        ensures
            builder.0.deep_view() == (MessageView {
                properties: Some(properties.deep_view()),
                ..self.0.deep_view()
            }),
    {
        let mut message = self.0;
        message.properties = Some(properties);
        MessageBuilder(message)
    }

    pub fn application_properties(self, properties: ApplicationProperties) -> (builder:
        MessageBuilder)
        ensures
            builder.0.deep_view() == (MessageView {
                application_properties: Some(properties.deep_view()),
                ..self.0.deep_view()
            }),
    {
        let mut message = self.0;
        message.application_properties = Some(properties);
        MessageBuilder(message)
    }

    pub fn body(self, body: Body) -> (builder: MessageBuilder)
        ensures
            builder.0.deep_view() == (MessageView { body: body.deep_view(), ..self.0.deep_view() }),
    {
        let mut message = self.0;
        message.body = body;
        MessageBuilder(message)
    }

    pub fn build(self) -> (message: Message)
        ensures
            message == self.0,
    {
        self.0
    }
}

} // verus!
