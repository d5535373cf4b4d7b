//! Composite AMQP types as described values, and back.

use vstd::prelude::*;

use crate::amqp::fault::CodecFault;
use crate::amqp::fields;
use crate::amqp::fields::{
    described, list, optional, read_optional, read_plain, read_required, take_described,
    take_fields, take_list, Copied, Field, Slot,
};
use crate::amqp::types;
use crate::amqp::types::{
    Accepted, AmqpError, AnnotationKey, AnnotationKeyView, Attach, AttachView, Begin, BeginView,
    Close, CloseView, DeliveryState, DeliveryStateView, DeliveryTag, Detach, DetachView,
    Disposition, DispositionView, End, EndView, Error, ErrorCondition, ErrorConditionView,
    ErrorView, Fields, FilterSet, Flow, FlowView, Header, HeaderView, MessageId, MessageIdView,
    Modified, ModifiedView, Open, OpenView, Performative, PerformativeView, Properties,
    PropertiesView, ReceiverSettleMode, Rejected, RejectedView, Released, Role, SaslChallenge,
    SaslChallengeView, SaslCode, SaslInit, SaslInitView, SaslMechanisms, SaslMechanismsView,
    SaslOutcome, SaslOutcomeView, SaslPerformative, SaslResponse, SaslResponseView, SaslView,
    SenderSettleMode, Source, SourceView, Target, TargetView, Transfer, TransferView, Unsettled,
};
use crate::amqp::value;
use crate::amqp::value::{AmqpValue, Symbol, ValueView};

verus! {

pub const OPEN: u64 = 0x10;

pub const BEGIN: u64 = 0x11;

pub const ATTACH: u64 = 0x12;

pub const FLOW: u64 = 0x13;

pub const TRANSFER: u64 = 0x14;

pub const DISPOSITION: u64 = 0x15;

pub const DETACH: u64 = 0x16;

pub const END: u64 = 0x17;

pub const CLOSE: u64 = 0x18;

pub const ERROR: u64 = 0x1d;

pub const RECEIVED: u64 = 0x23;

pub const ACCEPTED: u64 = 0x24;

pub const REJECTED: u64 = 0x25;

pub const RELEASED: u64 = 0x26;

pub const MODIFIED: u64 = 0x27;

pub const SOURCE: u64 = 0x28;

pub const TARGET: u64 = 0x29;

pub const SASL_MECHANISMS: u64 = 0x40;

pub const SASL_INIT: u64 = 0x41;

pub const SASL_CHALLENGE: u64 = 0x42;

pub const SASL_RESPONSE: u64 = 0x43;

pub const SASL_OUTCOME: u64 = 0x44;

pub const HEADER: u64 = 0x70;

pub const DELIVERY_ANNOTATIONS: u64 = 0x71;

pub const MESSAGE_ANNOTATIONS: u64 = 0x72;

pub const PROPERTIES: u64 = 0x73;

pub const APPLICATION_PROPERTIES: u64 = 0x74;

pub const DATA: u64 = 0x75;

pub const AMQP_SEQUENCE: u64 = 0x76;

pub const AMQP_VALUE: u64 = 0x77;

pub const FOOTER: u64 = 0x78;

/// A type that is carried as a described list of its fields.
pub trait Composite: Copied {
    spec fn code() -> u64;

    /// Whether every field can be told from its AMQP value.
    spec fn sound_fields(v: Self::V) -> bool;

    spec fn fields_of(v: Self::V) -> Seq<ValueView>;

    spec fn of_fields(f: Seq<ValueView>) -> Result<Self::V, CodecFault>;

    proof fn fields_read_back(v: Self::V)
        requires
            Self::sound_fields(v),
        ensures
            Self::of_fields(fields::trimmed(Self::fields_of(v))) == Ok::<Self::V, CodecFault>(v),
    ;

    fn code_of() -> (code: u64)
        ensures
            code == Self::code(),
    ;

    fn write_fields(&self) -> (fields: Vec<AmqpValue>)
        ensures
            value::meanings(fields@) == Self::fields_of(self.deep_view()),
    ;

    fn read_fields(f: &Vec<AmqpValue>) -> (read: Result<Self, CodecFault>)
        ensures
            match read {
                Ok(read) => Self::of_fields(value::meanings(f@)) == Ok::<Self::V, CodecFault>(
                    read.deep_view(),
                ),
                Err(fault) => Self::of_fields(value::meanings(f@)) == Err::<Self::V, CodecFault>(
                    fault,
                ),
            },
    ;
}

/// A composite type as an AMQP value.
pub open spec fn composite_value<T: Composite>(v: T::V) -> ValueView {
    fields::described_list(T::code(), T::fields_of(v))
}

pub fn write_composite<T: Composite>(composite: &T) -> (value: AmqpValue)
    ensures
        value::meaning(value) == composite_value::<T>(composite.deep_view()),
{
    described(T::code_of(), list(composite.write_fields()))
}

impl Field for Role {
    open spec fn sound(v: Role) -> bool {
        true
    }

    open spec fn value_of(v: Role) -> ValueView {
        match v {
            Role::Sender => ValueView::Bool(false),
            Role::Receiver => ValueView::Bool(true),
        }
    }

    open spec fn of_value(v: ValueView) -> Result<Role, CodecFault> {
        match v {
            ValueView::Bool(n) => if n == false {
                Ok(Role::Sender)
            } else if n == true {
                Ok(Role::Receiver)
            } else {
                Err(CodecFault::NotRole)
            },
            _ => Err(CodecFault::NotRole),
        }
    }

    proof fn reads_back(v: Role) {
    }

    fn to_value(&self) -> (value: AmqpValue) {
        match self {
            Role::Sender => AmqpValue::Bool(false),
            Role::Receiver => AmqpValue::Bool(true),
        }
    }

    fn from_value(value: &AmqpValue) -> (read: Result<Self, CodecFault>) {
        match value {
            AmqpValue::Bool(n) => if *n == false {
                Ok(Role::Sender)
            } else if *n == true {
                Ok(Role::Receiver)
            } else {
                Err(CodecFault::NotRole)
            },
            _ => Err(CodecFault::NotRole),
        }
    }
}

impl Field for SenderSettleMode {
    open spec fn sound(v: SenderSettleMode) -> bool {
        true
    }

    open spec fn value_of(v: SenderSettleMode) -> ValueView {
        match v {
            SenderSettleMode::Unsettled => ValueView::Ubyte(0u8),
            SenderSettleMode::Settled => ValueView::Ubyte(1u8),
            SenderSettleMode::Mixed => ValueView::Ubyte(2u8),
        }
    }

    open spec fn of_value(v: ValueView) -> Result<SenderSettleMode, CodecFault> {
        match v {
            ValueView::Ubyte(n) => if n == 0u8 {
                Ok(SenderSettleMode::Unsettled)
            } else if n == 1u8 {
                Ok(SenderSettleMode::Settled)
            } else if n == 2u8 {
                Ok(SenderSettleMode::Mixed)
            } else {
                Err(CodecFault::NotSenderSettleMode)
            },
            _ => Err(CodecFault::NotSenderSettleMode),
        }
    }

    proof fn reads_back(v: SenderSettleMode) {
    }

    fn to_value(&self) -> (value: AmqpValue) {
        match self {
            SenderSettleMode::Unsettled => AmqpValue::Ubyte(0u8),
            SenderSettleMode::Settled => AmqpValue::Ubyte(1u8),
            SenderSettleMode::Mixed => AmqpValue::Ubyte(2u8),
        }
    }

    fn from_value(value: &AmqpValue) -> (read: Result<Self, CodecFault>) {
        match value {
            AmqpValue::Ubyte(n) => if *n == 0u8 {
                Ok(SenderSettleMode::Unsettled)
            } else if *n == 1u8 {
                Ok(SenderSettleMode::Settled)
            } else if *n == 2u8 {
                Ok(SenderSettleMode::Mixed)
            } else {
                Err(CodecFault::NotSenderSettleMode)
            },
            _ => Err(CodecFault::NotSenderSettleMode),
        }
    }
}

impl Field for ReceiverSettleMode {
    open spec fn sound(v: ReceiverSettleMode) -> bool {
        true
    }

    open spec fn value_of(v: ReceiverSettleMode) -> ValueView {
        match v {
            ReceiverSettleMode::First => ValueView::Ubyte(0u8),
            ReceiverSettleMode::Second => ValueView::Ubyte(1u8),
        }
    }

    open spec fn of_value(v: ValueView) -> Result<ReceiverSettleMode, CodecFault> {
        match v {
            ValueView::Ubyte(n) => if n == 0u8 {
                Ok(ReceiverSettleMode::First)
            } else if n == 1u8 {
                Ok(ReceiverSettleMode::Second)
            } else {
                Err(CodecFault::NotReceiverSettleMode)
            },
            _ => Err(CodecFault::NotReceiverSettleMode),
        }
    }

    proof fn reads_back(v: ReceiverSettleMode) {
    }

    fn to_value(&self) -> (value: AmqpValue) {
        match self {
            ReceiverSettleMode::First => AmqpValue::Ubyte(0u8),
            ReceiverSettleMode::Second => AmqpValue::Ubyte(1u8),
        }
    }

    fn from_value(value: &AmqpValue) -> (read: Result<Self, CodecFault>) {
        match value {
            AmqpValue::Ubyte(n) => if *n == 0u8 {
                Ok(ReceiverSettleMode::First)
            } else if *n == 1u8 {
                Ok(ReceiverSettleMode::Second)
            } else {
                Err(CodecFault::NotReceiverSettleMode)
            },
            _ => Err(CodecFault::NotReceiverSettleMode),
        }
    }
}

impl Field for SaslCode {
    open spec fn sound(v: SaslCode) -> bool {
        true
    }

    open spec fn value_of(v: SaslCode) -> ValueView {
        match v {
            SaslCode::Success => ValueView::Ubyte(0u8),
            SaslCode::Auth => ValueView::Ubyte(1u8),
            SaslCode::Sys => ValueView::Ubyte(2u8),
            SaslCode::SysPerm => ValueView::Ubyte(3u8),
            SaslCode::SysTemp => ValueView::Ubyte(4u8),
        }
    }

    open spec fn of_value(v: ValueView) -> Result<SaslCode, CodecFault> {
        match v {
            ValueView::Ubyte(n) => if n == 0u8 {
                Ok(SaslCode::Success)
            } else if n == 1u8 {
                Ok(SaslCode::Auth)
            } else if n == 2u8 {
                Ok(SaslCode::Sys)
            } else if n == 3u8 {
                Ok(SaslCode::SysPerm)
            } else if n == 4u8 {
                Ok(SaslCode::SysTemp)
            } else {
                Err(CodecFault::NotSaslCode)
            },
            _ => Err(CodecFault::NotSaslCode),
        }
    }

    proof fn reads_back(v: SaslCode) {
    }

    fn to_value(&self) -> (value: AmqpValue) {
        match self {
            SaslCode::Success => AmqpValue::Ubyte(0u8),
            SaslCode::Auth => AmqpValue::Ubyte(1u8),
            SaslCode::Sys => AmqpValue::Ubyte(2u8),
            SaslCode::SysPerm => AmqpValue::Ubyte(3u8),
            SaslCode::SysTemp => AmqpValue::Ubyte(4u8),
        }
    }

    fn from_value(value: &AmqpValue) -> (read: Result<Self, CodecFault>) {
        match value {
            AmqpValue::Ubyte(n) => if *n == 0u8 {
                Ok(SaslCode::Success)
            } else if *n == 1u8 {
                Ok(SaslCode::Auth)
            } else if *n == 2u8 {
                Ok(SaslCode::Sys)
            } else if *n == 3u8 {
                Ok(SaslCode::SysPerm)
            } else if *n == 4u8 {
                Ok(SaslCode::SysTemp)
            } else {
                Err(CodecFault::NotSaslCode)
            },
            _ => Err(CodecFault::NotSaslCode),
        }
    }
}

impl Composite for Error {
    open spec fn code() -> u64 {
        ERROR
    }

    open spec fn sound_fields(v: ErrorView) -> bool {
        &&& <ErrorCondition as Field>::sound(v.condition)
        &&& fields::sound_optional::<String>(v.description)
        &&& fields::sound_optional::<Fields>(v.info)
    }

    open spec fn fields_of(v: ErrorView) -> Seq<ValueView> {
        seq![
            <ErrorCondition as Field>::value_of(v.condition),
            fields::value_of_optional::<String>(v.description),
            fields::value_of_optional::<Fields>(v.info),
        ]
    }

    open spec fn of_fields(f: Seq<ValueView>) -> Result<ErrorView, CodecFault> {
        let condition = <ErrorCondition as Field>::of_value(fields::item(f, 0));
        let description = fields::optional_at::<String>(f, 1);
        let info = fields::optional_at::<Fields>(f, 2);
        let read = Ok(
            ErrorView {
                condition: condition->Ok_0,
                description: description->Ok_0,
                info: info->Ok_0,
            },
        );
        let read = fields::unless_faulty(info, read);
        let read = fields::unless_faulty(description, read);
        fields::unless_faulty(condition, read)
    }

    proof fn fields_read_back(v: ErrorView) {
        let f = Self::fields_of(v);
        let t = fields::trimmed(f);
        fields::trimming_keeps_items(f, 0);
        <ErrorCondition as Field>::reads_back(v.condition);
        fields::trimming_keeps_items(f, 1);
        fields::optional_reads_back::<String>(t, 1, v.description);
        fields::trimming_keeps_items(f, 2);
        fields::optional_reads_back::<Fields>(t, 2, v.info);
    }

    fn code_of() -> (code: u64) {
        ERROR
    }

    fn write_fields(&self) -> (fields: Vec<AmqpValue>) {
        let fields = vec![
            self.condition.to_value(),
            optional(&self.description),
            optional(&self.info),
        ];
        proof {
            assert(value::meanings(fields@) =~= Self::fields_of(self.deep_view()));
        }
        fields
    }

    fn read_fields(f: &Vec<AmqpValue>) -> (read: Result<Self, CodecFault>) {
        let condition = read_plain::<ErrorCondition>(f, 0)?;
        let description = read_optional::<String>(f, 1)?;
        let info = read_optional::<Fields>(f, 2)?;
        Ok(Error { condition, description, info })
    }
}

impl Field for Error {
    open spec fn sound(v: ErrorView) -> bool {
        Self::sound_fields(v)
    }

    open spec fn value_of(v: ErrorView) -> ValueView {
        composite_value::<Error>(v)
    }

    open spec fn of_value(v: ValueView) -> Result<ErrorView, CodecFault> {
        match fields::taken_described(v) {
            Err(fault) => Err(fault),
            Ok((code, inner)) => if code != ERROR {
                Err(CodecFault::NotError)
            } else {
                match fields::taken_list(inner) {
                    Err(fault) => Err(fault),
                    Ok(items) => Self::of_fields(items),
                }
            },
        }
    }

    proof fn reads_back(v: ErrorView) {
        Self::fields_read_back(v);
    }

    fn to_value(&self) -> (value: AmqpValue) {
        write_composite(self)
    }

    fn from_value(value: &AmqpValue) -> (read: Result<Self, CodecFault>) {
        let (code, inner) = take_described(value)?;
        if code != ERROR {
            return Err(CodecFault::NotError);
        }
        let items = take_list(inner)?;
        Self::read_fields(items)
    }
}

impl Composite for Modified {
    open spec fn code() -> u64 {
        MODIFIED
    }

    open spec fn sound_fields(v: ModifiedView) -> bool {
        &&& fields::sound_optional::<bool>(v.delivery_failed)
        &&& fields::sound_optional::<bool>(v.undeliverable_here)
        &&& fields::sound_optional::<Fields>(v.message_annotations)
    }

    open spec fn fields_of(v: ModifiedView) -> Seq<ValueView> {
        seq![
            fields::value_of_optional::<bool>(v.delivery_failed),
            fields::value_of_optional::<bool>(v.undeliverable_here),
            fields::value_of_optional::<Fields>(v.message_annotations),
        ]
    }

    open spec fn of_fields(f: Seq<ValueView>) -> Result<ModifiedView, CodecFault> {
        let delivery_failed = fields::optional_at::<bool>(f, 0);
        let undeliverable_here = fields::optional_at::<bool>(f, 1);
        let message_annotations = fields::optional_at::<Fields>(f, 2);
        let read = Ok(
            ModifiedView {
                delivery_failed: delivery_failed->Ok_0,
                undeliverable_here: undeliverable_here->Ok_0,
                message_annotations: message_annotations->Ok_0,
            },
        );
        let read = fields::unless_faulty(message_annotations, read);
        let read = fields::unless_faulty(undeliverable_here, read);
        fields::unless_faulty(delivery_failed, read)
    }

    proof fn fields_read_back(v: ModifiedView) {
        let f = Self::fields_of(v);
        let t = fields::trimmed(f);
        fields::trimming_keeps_items(f, 0);
        fields::optional_reads_back::<bool>(t, 0, v.delivery_failed);
        fields::trimming_keeps_items(f, 1);
        fields::optional_reads_back::<bool>(t, 1, v.undeliverable_here);
        fields::trimming_keeps_items(f, 2);
        fields::optional_reads_back::<Fields>(t, 2, v.message_annotations);
    }

    fn code_of() -> (code: u64) {
        MODIFIED
    }

    fn write_fields(&self) -> (fields: Vec<AmqpValue>) {
        let fields = vec![
            optional(&self.delivery_failed),
            optional(&self.undeliverable_here),
            optional(&self.message_annotations),
        ];
        proof {
            assert(value::meanings(fields@) =~= Self::fields_of(self.deep_view()));
        }
        fields
    }

    fn read_fields(f: &Vec<AmqpValue>) -> (read: Result<Self, CodecFault>) {
        let delivery_failed = read_optional::<bool>(f, 0)?;
        let undeliverable_here = read_optional::<bool>(f, 1)?;
        let message_annotations = read_optional::<Fields>(f, 2)?;
        Ok(Modified { delivery_failed, undeliverable_here, message_annotations })
    }
}

impl Composite for Rejected {
    open spec fn code() -> u64 {
        REJECTED
    }

    open spec fn sound_fields(v: RejectedView) -> bool {
        &&& fields::sound_optional::<Error>(v.error)
    }

    open spec fn fields_of(v: RejectedView) -> Seq<ValueView> {
        seq![
            fields::value_of_optional::<Error>(v.error),
        ]
    }

    open spec fn of_fields(f: Seq<ValueView>) -> Result<RejectedView, CodecFault> {
        match fields::optional_at::<Error>(f, 0) {
            Err(fault) => Err(fault),
            Ok(error) => Ok(RejectedView { error }),
        }
    }

    proof fn fields_read_back(v: RejectedView) {
        let f = Self::fields_of(v);
        let t = fields::trimmed(f);
        fields::trimming_keeps_items(f, 0);
        fields::optional_reads_back::<Error>(t, 0, v.error);
    }

    fn code_of() -> (code: u64) {
        REJECTED
    }

    fn write_fields(&self) -> (fields: Vec<AmqpValue>) {
        let fields = vec![
            optional(&self.error),
        ];
        proof {
            assert(value::meanings(fields@) =~= Self::fields_of(self.deep_view()));
        }
        fields
    }

    fn read_fields(f: &Vec<AmqpValue>) -> (read: Result<Self, CodecFault>) {
        let error = read_optional::<Error>(f, 0)?;
        Ok(Rejected { error })
    }
}

impl Composite for Source {
    open spec fn code() -> u64 {
        SOURCE
    }

    open spec fn sound_fields(v: SourceView) -> bool {
        &&& fields::sound_optional::<String>(v.address)
        &&& <u32 as Field>::sound(v.durable)
        &&& fields::sound_optional::<Symbol>(v.expiry_policy)
        &&& <u32 as Field>::sound(v.timeout)
        &&& <bool as Field>::sound(v.dynamic)
        &&& fields::sound_optional::<Fields>(v.dynamic_node_properties)
        &&& fields::sound_optional::<Symbol>(v.distribution_mode)
        &&& fields::sound_optional::<FilterSet>(v.filter)
        &&& fields::sound_optional::<DeliveryState>(v.default_outcome)
        &&& fields::sound_optional::<Vec<Symbol>>(v.outcomes)
        &&& fields::sound_optional::<Vec<Symbol>>(v.capabilities)
    }

    open spec fn fields_of(v: SourceView) -> Seq<ValueView> {
        seq![
            fields::value_of_optional::<String>(v.address),
            <u32 as Field>::value_of(v.durable),
            fields::value_of_optional::<Symbol>(v.expiry_policy),
            <u32 as Field>::value_of(v.timeout),
            <bool as Field>::value_of(v.dynamic),
            fields::value_of_optional::<Fields>(v.dynamic_node_properties),
            fields::value_of_optional::<Symbol>(v.distribution_mode),
            fields::value_of_optional::<FilterSet>(v.filter),
            fields::value_of_optional::<DeliveryState>(v.default_outcome),
            fields::value_of_optional::<Vec<Symbol>>(v.outcomes),
            fields::value_of_optional::<Vec<Symbol>>(v.capabilities),
        ]
    }

    open spec fn of_fields(f: Seq<ValueView>) -> Result<SourceView, CodecFault> {
        let address = fields::optional_at::<String>(f, 0);
        let durable = fields::optional_at::<u32>(f, 1);
        let expiry_policy = fields::optional_at::<Symbol>(f, 2);
        let timeout = fields::optional_at::<u32>(f, 3);
        let dynamic = fields::optional_at::<bool>(f, 4);
        let dynamic_node_properties = fields::optional_at::<Fields>(f, 5);
        let distribution_mode = fields::optional_at::<Symbol>(f, 6);
        let filter = fields::optional_at::<FilterSet>(f, 7);
        let default_outcome = fields::optional_at::<DeliveryState>(f, 8);
        let outcomes = fields::optional_at::<Vec<Symbol>>(f, 9);
        let capabilities = fields::optional_at::<Vec<Symbol>>(f, 10);
        let read = Ok(
            SourceView {
                address: address->Ok_0,
                durable: fields::or_default(durable->Ok_0, 0u32),
                expiry_policy: expiry_policy->Ok_0,
                timeout: fields::or_default(timeout->Ok_0, 0u32),
                dynamic: fields::or_default(dynamic->Ok_0, false),
                dynamic_node_properties: dynamic_node_properties->Ok_0,
                distribution_mode: distribution_mode->Ok_0,
                filter: filter->Ok_0,
                default_outcome: default_outcome->Ok_0,
                outcomes: outcomes->Ok_0,
                capabilities: capabilities->Ok_0,
            },
        );
        let read = fields::unless_faulty(capabilities, read);
        let read = fields::unless_faulty(outcomes, read);
        let read = fields::unless_faulty(default_outcome, read);
        let read = fields::unless_faulty(filter, read);
        let read = fields::unless_faulty(distribution_mode, read);
        let read = fields::unless_faulty(dynamic_node_properties, read);
        let read = fields::unless_faulty(dynamic, read);
        let read = fields::unless_faulty(timeout, read);
        let read = fields::unless_faulty(expiry_policy, read);
        let read = fields::unless_faulty(durable, read);
        fields::unless_faulty(address, read)
    }

    proof fn fields_read_back(v: SourceView) {
        let f = Self::fields_of(v);
        let t = fields::trimmed(f);
        fields::trimming_keeps_items(f, 0);
        fields::optional_reads_back::<String>(t, 0, v.address);
        fields::trimming_keeps_items(f, 1);
        <u32 as Field>::reads_back(v.durable);
        fields::trimming_keeps_items(f, 2);
        fields::optional_reads_back::<Symbol>(t, 2, v.expiry_policy);
        fields::trimming_keeps_items(f, 3);
        <u32 as Field>::reads_back(v.timeout);
        fields::trimming_keeps_items(f, 4);
        <bool as Field>::reads_back(v.dynamic);
        fields::trimming_keeps_items(f, 5);
        fields::optional_reads_back::<Fields>(t, 5, v.dynamic_node_properties);
        fields::trimming_keeps_items(f, 6);
        fields::optional_reads_back::<Symbol>(t, 6, v.distribution_mode);
        fields::trimming_keeps_items(f, 7);
        fields::optional_reads_back::<FilterSet>(t, 7, v.filter);
        fields::trimming_keeps_items(f, 8);
        fields::optional_reads_back::<DeliveryState>(t, 8, v.default_outcome);
        fields::trimming_keeps_items(f, 9);
        fields::optional_reads_back::<Vec<Symbol>>(t, 9, v.outcomes);
        fields::trimming_keeps_items(f, 10);
        fields::optional_reads_back::<Vec<Symbol>>(t, 10, v.capabilities);
    }

    fn code_of() -> (code: u64) {
        SOURCE
    }

    fn write_fields(&self) -> (fields: Vec<AmqpValue>) {
        let fields = vec![
            optional(&self.address),
            self.durable.to_value(),
            optional(&self.expiry_policy),
            self.timeout.to_value(),
            self.dynamic.to_value(),
            optional(&self.dynamic_node_properties),
            optional(&self.distribution_mode),
            optional(&self.filter),
            optional(&self.default_outcome),
            optional(&self.outcomes),
            optional(&self.capabilities),
        ];
        proof {
            assert(value::meanings(fields@) =~= Self::fields_of(self.deep_view()));
        }
        fields
    }

    fn read_fields(f: &Vec<AmqpValue>) -> (read: Result<Self, CodecFault>) {
        let address = read_optional::<String>(f, 0)?;
        let durable = match read_optional::<u32>(f, 1)? {
            Some(durable) => durable,
            None => 0u32,
        };
        let expiry_policy = read_optional::<Symbol>(f, 2)?;
        let timeout = match read_optional::<u32>(f, 3)? {
            Some(timeout) => timeout,
            None => 0u32,
        };
        let dynamic = match read_optional::<bool>(f, 4)? {
            Some(dynamic) => dynamic,
            None => false,
        };
        let dynamic_node_properties = read_optional::<Fields>(f, 5)?;
        let distribution_mode = read_optional::<Symbol>(f, 6)?;
        let filter = read_optional::<FilterSet>(f, 7)?;
        let default_outcome = read_optional::<DeliveryState>(f, 8)?;
        let outcomes = read_optional::<Vec<Symbol>>(f, 9)?;
        let capabilities = read_optional::<Vec<Symbol>>(f, 10)?;
        Ok(
            Source {
                address,
                durable,
                expiry_policy,
                timeout,
                dynamic,
                dynamic_node_properties,
                distribution_mode,
                filter,
                default_outcome,
                outcomes,
                capabilities,
            },
        )
    }
}

impl Field for Source {
    open spec fn sound(v: SourceView) -> bool {
        Self::sound_fields(v)
    }

    open spec fn value_of(v: SourceView) -> ValueView {
        composite_value::<Source>(v)
    }

    open spec fn of_value(v: ValueView) -> Result<SourceView, CodecFault> {
        match fields::taken_described(v) {
            Err(fault) => Err(fault),
            Ok((code, inner)) => if code != SOURCE {
                Err(CodecFault::NotSource)
            } else {
                match fields::taken_list(inner) {
                    Err(fault) => Err(fault),
                    Ok(items) => Self::of_fields(items),
                }
            },
        }
    }

    proof fn reads_back(v: SourceView) {
        Self::fields_read_back(v);
    }

    fn to_value(&self) -> (value: AmqpValue) {
        write_composite(self)
    }

    fn from_value(value: &AmqpValue) -> (read: Result<Self, CodecFault>) {
        let (code, inner) = take_described(value)?;
        if code != SOURCE {
            return Err(CodecFault::NotSource);
        }
        let items = take_list(inner)?;
        Self::read_fields(items)
    }
}

impl Composite for Target {
    open spec fn code() -> u64 {
        TARGET
    }

    open spec fn sound_fields(v: TargetView) -> bool {
        &&& fields::sound_optional::<String>(v.address)
        &&& <u32 as Field>::sound(v.durable)
        &&& fields::sound_optional::<Symbol>(v.expiry_policy)
        &&& <u32 as Field>::sound(v.timeout)
        &&& <bool as Field>::sound(v.dynamic)
        &&& fields::sound_optional::<Fields>(v.dynamic_node_properties)
        &&& fields::sound_optional::<Vec<Symbol>>(v.capabilities)
    }

    open spec fn fields_of(v: TargetView) -> Seq<ValueView> {
        seq![
            fields::value_of_optional::<String>(v.address),
            <u32 as Field>::value_of(v.durable),
            fields::value_of_optional::<Symbol>(v.expiry_policy),
            <u32 as Field>::value_of(v.timeout),
            <bool as Field>::value_of(v.dynamic),
            fields::value_of_optional::<Fields>(v.dynamic_node_properties),
            fields::value_of_optional::<Vec<Symbol>>(v.capabilities),
        ]
    }

    open spec fn of_fields(f: Seq<ValueView>) -> Result<TargetView, CodecFault> {
        let address = fields::optional_at::<String>(f, 0);
        let durable = fields::optional_at::<u32>(f, 1);
        let expiry_policy = fields::optional_at::<Symbol>(f, 2);
        let timeout = fields::optional_at::<u32>(f, 3);
        let dynamic = fields::optional_at::<bool>(f, 4);
        let dynamic_node_properties = fields::optional_at::<Fields>(f, 5);
        let capabilities = fields::optional_at::<Vec<Symbol>>(f, 6);
        let read = Ok(
            TargetView {
                address: address->Ok_0,
                durable: fields::or_default(durable->Ok_0, 0u32),
                expiry_policy: expiry_policy->Ok_0,
                timeout: fields::or_default(timeout->Ok_0, 0u32),
                dynamic: fields::or_default(dynamic->Ok_0, false),
                dynamic_node_properties: dynamic_node_properties->Ok_0,
                capabilities: capabilities->Ok_0,
            },
        );
        let read = fields::unless_faulty(capabilities, read);
        let read = fields::unless_faulty(dynamic_node_properties, read);
        let read = fields::unless_faulty(dynamic, read);
        let read = fields::unless_faulty(timeout, read);
        let read = fields::unless_faulty(expiry_policy, read);
        let read = fields::unless_faulty(durable, read);
        fields::unless_faulty(address, read)
    }

    proof fn fields_read_back(v: TargetView) {
        let f = Self::fields_of(v);
        let t = fields::trimmed(f);
        fields::trimming_keeps_items(f, 0);
        fields::optional_reads_back::<String>(t, 0, v.address);
        fields::trimming_keeps_items(f, 1);
        <u32 as Field>::reads_back(v.durable);
        fields::trimming_keeps_items(f, 2);
        fields::optional_reads_back::<Symbol>(t, 2, v.expiry_policy);
        fields::trimming_keeps_items(f, 3);
        <u32 as Field>::reads_back(v.timeout);
        fields::trimming_keeps_items(f, 4);
        <bool as Field>::reads_back(v.dynamic);
        fields::trimming_keeps_items(f, 5);
        fields::optional_reads_back::<Fields>(t, 5, v.dynamic_node_properties);
        fields::trimming_keeps_items(f, 6);
        fields::optional_reads_back::<Vec<Symbol>>(t, 6, v.capabilities);
    }

    fn code_of() -> (code: u64) {
        TARGET
    }

    fn write_fields(&self) -> (fields: Vec<AmqpValue>) {
        let fields = vec![
            optional(&self.address),
            self.durable.to_value(),
            optional(&self.expiry_policy),
            self.timeout.to_value(),
            self.dynamic.to_value(),
            optional(&self.dynamic_node_properties),
            optional(&self.capabilities),
        ];
        proof {
            assert(value::meanings(fields@) =~= Self::fields_of(self.deep_view()));
        }
        fields
    }

    fn read_fields(f: &Vec<AmqpValue>) -> (read: Result<Self, CodecFault>) {
        let address = read_optional::<String>(f, 0)?;
        let durable = match read_optional::<u32>(f, 1)? {
            Some(durable) => durable,
            None => 0u32,
        };
        let expiry_policy = read_optional::<Symbol>(f, 2)?;
        let timeout = match read_optional::<u32>(f, 3)? {
            Some(timeout) => timeout,
            None => 0u32,
        };
        let dynamic = match read_optional::<bool>(f, 4)? {
            Some(dynamic) => dynamic,
            None => false,
        };
        let dynamic_node_properties = read_optional::<Fields>(f, 5)?;
        let capabilities = read_optional::<Vec<Symbol>>(f, 6)?;
        Ok(
            Target {
                address,
                durable,
                expiry_policy,
                timeout,
                dynamic,
                dynamic_node_properties,
                capabilities,
            },
        )
    }
}

impl Field for Target {
    open spec fn sound(v: TargetView) -> bool {
        Self::sound_fields(v)
    }

    open spec fn value_of(v: TargetView) -> ValueView {
        composite_value::<Target>(v)
    }

    open spec fn of_value(v: ValueView) -> Result<TargetView, CodecFault> {
        match fields::taken_described(v) {
            Err(fault) => Err(fault),
            Ok((code, inner)) => if code != TARGET {
                Err(CodecFault::NotTarget)
            } else {
                match fields::taken_list(inner) {
                    Err(fault) => Err(fault),
                    Ok(items) => Self::of_fields(items),
                }
            },
        }
    }

    proof fn reads_back(v: TargetView) {
        Self::fields_read_back(v);
    }

    fn to_value(&self) -> (value: AmqpValue) {
        write_composite(self)
    }

    fn from_value(value: &AmqpValue) -> (read: Result<Self, CodecFault>) {
        let (code, inner) = take_described(value)?;
        if code != TARGET {
            return Err(CodecFault::NotTarget);
        }
        let items = take_list(inner)?;
        Self::read_fields(items)
    }
}

impl Composite for Open {
    open spec fn code() -> u64 {
        OPEN
    }

    open spec fn sound_fields(v: OpenView) -> bool {
        &&& <String as Field>::sound(v.container_id)
        &&& fields::sound_optional::<String>(v.hostname)
        &&& <u32 as Field>::sound(v.max_frame_size)
        &&& <u16 as Field>::sound(v.channel_max)
        &&& fields::sound_optional::<u32>(v.idle_time_out)
        &&& fields::sound_optional::<Vec<Symbol>>(v.outgoing_locales)
        &&& fields::sound_optional::<Vec<Symbol>>(v.incoming_locales)
        &&& fields::sound_optional::<Vec<Symbol>>(v.offered_capabilities)
        &&& fields::sound_optional::<Vec<Symbol>>(v.desired_capabilities)
        &&& fields::sound_optional::<Fields>(v.properties)
    }

    open spec fn fields_of(v: OpenView) -> Seq<ValueView> {
        seq![
            <String as Field>::value_of(v.container_id),
            fields::value_of_optional::<String>(v.hostname),
            <u32 as Field>::value_of(v.max_frame_size),
            <u16 as Field>::value_of(v.channel_max),
            fields::value_of_optional::<u32>(v.idle_time_out),
            fields::value_of_optional::<Vec<Symbol>>(v.outgoing_locales),
            fields::value_of_optional::<Vec<Symbol>>(v.incoming_locales),
            fields::value_of_optional::<Vec<Symbol>>(v.offered_capabilities),
            fields::value_of_optional::<Vec<Symbol>>(v.desired_capabilities),
            fields::value_of_optional::<Fields>(v.properties),
        ]
    }

    open spec fn of_fields(f: Seq<ValueView>) -> Result<OpenView, CodecFault> {
        let container_id = fields::required_at::<String>(f, OPEN, 0);
        let hostname = fields::optional_at::<String>(f, 1);
        let max_frame_size = fields::optional_at::<u32>(f, 2);
        let channel_max = fields::optional_at::<u16>(f, 3);
        let idle_time_out = fields::optional_at::<u32>(f, 4);
        let outgoing_locales = fields::optional_at::<Vec<Symbol>>(f, 5);
        let incoming_locales = fields::optional_at::<Vec<Symbol>>(f, 6);
        let offered_capabilities = fields::optional_at::<Vec<Symbol>>(f, 7);
        let desired_capabilities = fields::optional_at::<Vec<Symbol>>(f, 8);
        let properties = fields::optional_at::<Fields>(f, 9);
        let read = Ok(
            OpenView {
                container_id: container_id->Ok_0,
                hostname: hostname->Ok_0,
                max_frame_size: fields::or_default(max_frame_size->Ok_0, 262_144u32),
                channel_max: fields::or_default(channel_max->Ok_0, u16::MAX),
                idle_time_out: idle_time_out->Ok_0,
                outgoing_locales: outgoing_locales->Ok_0,
                incoming_locales: incoming_locales->Ok_0,
                offered_capabilities: offered_capabilities->Ok_0,
                desired_capabilities: desired_capabilities->Ok_0,
                properties: properties->Ok_0,
            },
        );
        let read = fields::unless_faulty(properties, read);
        let read = fields::unless_faulty(desired_capabilities, read);
        let read = fields::unless_faulty(offered_capabilities, read);
        let read = fields::unless_faulty(incoming_locales, read);
        let read = fields::unless_faulty(outgoing_locales, read);
        let read = fields::unless_faulty(idle_time_out, read);
        let read = fields::unless_faulty(channel_max, read);
        let read = fields::unless_faulty(max_frame_size, read);
        let read = fields::unless_faulty(hostname, read);
        fields::unless_faulty(container_id, read)
    }

    proof fn fields_read_back(v: OpenView) {
        let f = Self::fields_of(v);
        let t = fields::trimmed(f);
        fields::trimming_keeps_items(f, 0);
        <String as Field>::reads_back(v.container_id);
        fields::trimming_keeps_items(f, 1);
        fields::optional_reads_back::<String>(t, 1, v.hostname);
        fields::trimming_keeps_items(f, 2);
        <u32 as Field>::reads_back(v.max_frame_size);
        fields::trimming_keeps_items(f, 3);
        <u16 as Field>::reads_back(v.channel_max);
        fields::trimming_keeps_items(f, 4);
        fields::optional_reads_back::<u32>(t, 4, v.idle_time_out);
        fields::trimming_keeps_items(f, 5);
        fields::optional_reads_back::<Vec<Symbol>>(t, 5, v.outgoing_locales);
        fields::trimming_keeps_items(f, 6);
        fields::optional_reads_back::<Vec<Symbol>>(t, 6, v.incoming_locales);
        fields::trimming_keeps_items(f, 7);
        fields::optional_reads_back::<Vec<Symbol>>(t, 7, v.offered_capabilities);
        fields::trimming_keeps_items(f, 8);
        fields::optional_reads_back::<Vec<Symbol>>(t, 8, v.desired_capabilities);
        fields::trimming_keeps_items(f, 9);
        fields::optional_reads_back::<Fields>(t, 9, v.properties);
    }

    fn code_of() -> (code: u64) {
        OPEN
    }

    fn write_fields(&self) -> (fields: Vec<AmqpValue>) {
        let fields = vec![
            self.container_id.to_value(),
            optional(&self.hostname),
            self.max_frame_size.to_value(),
            self.channel_max.to_value(),
            optional(&self.idle_time_out),
            optional(&self.outgoing_locales),
            optional(&self.incoming_locales),
            optional(&self.offered_capabilities),
            optional(&self.desired_capabilities),
            optional(&self.properties),
        ];
        proof {
            assert(value::meanings(fields@) =~= Self::fields_of(self.deep_view()));
        }
        fields
    }

    fn read_fields(f: &Vec<AmqpValue>) -> (read: Result<Self, CodecFault>) {
        let container_id = read_required::<String>(f, OPEN, 0)?;
        let hostname = read_optional::<String>(f, 1)?;
        let max_frame_size = match read_optional::<u32>(f, 2)? {
            Some(max_frame_size) => max_frame_size,
            None => 262_144u32,
        };
        let channel_max = match read_optional::<u16>(f, 3)? {
            Some(channel_max) => channel_max,
            None => u16::MAX,
        };
        let idle_time_out = read_optional::<u32>(f, 4)?;
        let outgoing_locales = read_optional::<Vec<Symbol>>(f, 5)?;
        let incoming_locales = read_optional::<Vec<Symbol>>(f, 6)?;
        let offered_capabilities = read_optional::<Vec<Symbol>>(f, 7)?;
        let desired_capabilities = read_optional::<Vec<Symbol>>(f, 8)?;
        let properties = read_optional::<Fields>(f, 9)?;
        Ok(
            Open {
                container_id,
                hostname,
                max_frame_size,
                channel_max,
                idle_time_out,
                outgoing_locales,
                incoming_locales,
                offered_capabilities,
                desired_capabilities,
                properties,
            },
        )
    }
}

impl Composite for Begin {
    open spec fn code() -> u64 {
        BEGIN
    }

    open spec fn sound_fields(v: BeginView) -> bool {
        &&& fields::sound_optional::<u16>(v.remote_channel)
        &&& <u32 as Field>::sound(v.next_outgoing_id)
        &&& <u32 as Field>::sound(v.incoming_window)
        &&& <u32 as Field>::sound(v.outgoing_window)
        &&& <u32 as Field>::sound(v.handle_max)
        &&& fields::sound_optional::<Vec<Symbol>>(v.offered_capabilities)
        &&& fields::sound_optional::<Vec<Symbol>>(v.desired_capabilities)
        &&& fields::sound_optional::<Fields>(v.properties)
    }

    open spec fn fields_of(v: BeginView) -> Seq<ValueView> {
        seq![
            fields::value_of_optional::<u16>(v.remote_channel),
            <u32 as Field>::value_of(v.next_outgoing_id),
            <u32 as Field>::value_of(v.incoming_window),
            <u32 as Field>::value_of(v.outgoing_window),
            <u32 as Field>::value_of(v.handle_max),
            fields::value_of_optional::<Vec<Symbol>>(v.offered_capabilities),
            fields::value_of_optional::<Vec<Symbol>>(v.desired_capabilities),
            fields::value_of_optional::<Fields>(v.properties),
        ]
    }

    open spec fn of_fields(f: Seq<ValueView>) -> Result<BeginView, CodecFault> {
        let remote_channel = fields::optional_at::<u16>(f, 0);
        let next_outgoing_id = fields::required_at::<u32>(f, BEGIN, 1);
        let incoming_window = fields::required_at::<u32>(f, BEGIN, 2);
        let outgoing_window = fields::required_at::<u32>(f, BEGIN, 3);
        let handle_max = fields::optional_at::<u32>(f, 4);
        let offered_capabilities = fields::optional_at::<Vec<Symbol>>(f, 5);
        let desired_capabilities = fields::optional_at::<Vec<Symbol>>(f, 6);
        let properties = fields::optional_at::<Fields>(f, 7);
        let read = Ok(
            BeginView {
                remote_channel: remote_channel->Ok_0,
                next_outgoing_id: next_outgoing_id->Ok_0,
                incoming_window: incoming_window->Ok_0,
                outgoing_window: outgoing_window->Ok_0,
                handle_max: fields::or_default(handle_max->Ok_0, u32::MAX),
                offered_capabilities: offered_capabilities->Ok_0,
                desired_capabilities: desired_capabilities->Ok_0,
                properties: properties->Ok_0,
            },
        );
        let read = fields::unless_faulty(properties, read);
        let read = fields::unless_faulty(desired_capabilities, read);
        let read = fields::unless_faulty(offered_capabilities, read);
        let read = fields::unless_faulty(handle_max, read);
        let read = fields::unless_faulty(outgoing_window, read);
        let read = fields::unless_faulty(incoming_window, read);
        let read = fields::unless_faulty(next_outgoing_id, read);
        fields::unless_faulty(remote_channel, read)
    }

    proof fn fields_read_back(v: BeginView) {
        let f = Self::fields_of(v);
        let t = fields::trimmed(f);
        fields::trimming_keeps_items(f, 0);
        fields::optional_reads_back::<u16>(t, 0, v.remote_channel);
        fields::trimming_keeps_items(f, 1);
        <u32 as Field>::reads_back(v.next_outgoing_id);
        fields::trimming_keeps_items(f, 2);
        <u32 as Field>::reads_back(v.incoming_window);
        fields::trimming_keeps_items(f, 3);
        <u32 as Field>::reads_back(v.outgoing_window);
        fields::trimming_keeps_items(f, 4);
        <u32 as Field>::reads_back(v.handle_max);
        fields::trimming_keeps_items(f, 5);
        fields::optional_reads_back::<Vec<Symbol>>(t, 5, v.offered_capabilities);
        fields::trimming_keeps_items(f, 6);
        fields::optional_reads_back::<Vec<Symbol>>(t, 6, v.desired_capabilities);
        fields::trimming_keeps_items(f, 7);
        fields::optional_reads_back::<Fields>(t, 7, v.properties);
    }

    fn code_of() -> (code: u64) {
        BEGIN
    }

    fn write_fields(&self) -> (fields: Vec<AmqpValue>) {
        let fields = vec![
            optional(&self.remote_channel),
            self.next_outgoing_id.to_value(),
            self.incoming_window.to_value(),
            self.outgoing_window.to_value(),
            self.handle_max.to_value(),
            optional(&self.offered_capabilities),
            optional(&self.desired_capabilities),
            optional(&self.properties),
        ];
        proof {
            assert(value::meanings(fields@) =~= Self::fields_of(self.deep_view()));
        }
        fields
    }

    fn read_fields(f: &Vec<AmqpValue>) -> (read: Result<Self, CodecFault>) {
        let remote_channel = read_optional::<u16>(f, 0)?;
        let next_outgoing_id = read_required::<u32>(f, BEGIN, 1)?;
        let incoming_window = read_required::<u32>(f, BEGIN, 2)?;
        let outgoing_window = read_required::<u32>(f, BEGIN, 3)?;
        let handle_max = match read_optional::<u32>(f, 4)? {
            Some(handle_max) => handle_max,
            None => u32::MAX,
        };
        let offered_capabilities = read_optional::<Vec<Symbol>>(f, 5)?;
        let desired_capabilities = read_optional::<Vec<Symbol>>(f, 6)?;
        let properties = read_optional::<Fields>(f, 7)?;
        Ok(
            Begin {
                remote_channel,
                next_outgoing_id,
                incoming_window,
                outgoing_window,
                handle_max,
                offered_capabilities,
                desired_capabilities,
                properties,
            },
        )
    }
}

impl Composite for Attach {
    open spec fn code() -> u64 {
        ATTACH
    }

    open spec fn sound_fields(v: AttachView) -> bool {
        &&& <String as Field>::sound(v.name)
        &&& <u32 as Field>::sound(v.handle)
        &&& <Role as Field>::sound(v.role)
        &&& <SenderSettleMode as Field>::sound(v.snd_settle_mode)
        &&& <ReceiverSettleMode as Field>::sound(v.rcv_settle_mode)
        &&& fields::sound_optional::<Source>(v.source)
        &&& fields::sound_optional::<Target>(v.target)
        &&& fields::sound_optional::<Unsettled>(v.unsettled)
        &&& <bool as Field>::sound(v.incomplete_unsettled)
        &&& fields::sound_optional::<u32>(v.initial_delivery_count)
        &&& fields::sound_optional::<u64>(v.max_message_size)
        &&& fields::sound_optional::<Vec<Symbol>>(v.offered_capabilities)
        &&& fields::sound_optional::<Vec<Symbol>>(v.desired_capabilities)
        &&& fields::sound_optional::<Fields>(v.properties)
    }

    open spec fn fields_of(v: AttachView) -> Seq<ValueView> {
        seq![
            <String as Field>::value_of(v.name),
            <u32 as Field>::value_of(v.handle),
            <Role as Field>::value_of(v.role),
            <SenderSettleMode as Field>::value_of(v.snd_settle_mode),
            <ReceiverSettleMode as Field>::value_of(v.rcv_settle_mode),
            fields::value_of_optional::<Source>(v.source),
            fields::value_of_optional::<Target>(v.target),
            fields::value_of_optional::<Unsettled>(v.unsettled),
            <bool as Field>::value_of(v.incomplete_unsettled),
            fields::value_of_optional::<u32>(v.initial_delivery_count),
            fields::value_of_optional::<u64>(v.max_message_size),
            fields::value_of_optional::<Vec<Symbol>>(v.offered_capabilities),
            fields::value_of_optional::<Vec<Symbol>>(v.desired_capabilities),
            fields::value_of_optional::<Fields>(v.properties),
        ]
    }

    open spec fn of_fields(f: Seq<ValueView>) -> Result<AttachView, CodecFault> {
        let name = fields::required_at::<String>(f, ATTACH, 0);
        let handle = fields::required_at::<u32>(f, ATTACH, 1);
        let role = <Role as Field>::of_value(fields::item(f, 2));
        let snd_settle_mode = fields::optional_at::<SenderSettleMode>(f, 3);
        let rcv_settle_mode = fields::optional_at::<ReceiverSettleMode>(f, 4);
        let source = fields::optional_at::<Source>(f, 5);
        let target = fields::optional_at::<Target>(f, 6);
        let unsettled = fields::optional_at::<Unsettled>(f, 7);
        let incomplete_unsettled = fields::optional_at::<bool>(f, 8);
        let initial_delivery_count = fields::optional_at::<u32>(f, 9);
        let max_message_size = fields::optional_at::<u64>(f, 10);
        let offered_capabilities = fields::optional_at::<Vec<Symbol>>(f, 11);
        let desired_capabilities = fields::optional_at::<Vec<Symbol>>(f, 12);
        let properties = fields::optional_at::<Fields>(f, 13);
        let read = Ok(
            AttachView {
                name: name->Ok_0,
                handle: handle->Ok_0,
                role: role->Ok_0,
                snd_settle_mode: fields::or_default(snd_settle_mode->Ok_0, SenderSettleMode::Mixed),
                rcv_settle_mode: fields::or_default(rcv_settle_mode->Ok_0, ReceiverSettleMode::First),
                source: source->Ok_0,
                target: target->Ok_0,
                unsettled: unsettled->Ok_0,
                incomplete_unsettled: fields::or_default(incomplete_unsettled->Ok_0, false),
                initial_delivery_count: initial_delivery_count->Ok_0,
                max_message_size: max_message_size->Ok_0,
                offered_capabilities: offered_capabilities->Ok_0,
                desired_capabilities: desired_capabilities->Ok_0,
                properties: properties->Ok_0,
            },
        );
        let read = fields::unless_faulty(properties, read);
        let read = fields::unless_faulty(desired_capabilities, read);
        let read = fields::unless_faulty(offered_capabilities, read);
        let read = fields::unless_faulty(max_message_size, read);
        let read = fields::unless_faulty(initial_delivery_count, read);
        let read = fields::unless_faulty(incomplete_unsettled, read);
        let read = fields::unless_faulty(unsettled, read);
        let read = fields::unless_faulty(target, read);
        let read = fields::unless_faulty(source, read);
        let read = fields::unless_faulty(rcv_settle_mode, read);
        let read = fields::unless_faulty(snd_settle_mode, read);
        let read = fields::unless_faulty(role, read);
        let read = fields::unless_faulty(handle, read);
        fields::unless_faulty(name, read)
    }

    proof fn fields_read_back(v: AttachView) {
        let f = Self::fields_of(v);
        let t = fields::trimmed(f);
        fields::trimming_keeps_items(f, 0);
        <String as Field>::reads_back(v.name);
        fields::trimming_keeps_items(f, 1);
        <u32 as Field>::reads_back(v.handle);
        fields::trimming_keeps_items(f, 2);
        <Role as Field>::reads_back(v.role);
        fields::trimming_keeps_items(f, 3);
        <SenderSettleMode as Field>::reads_back(v.snd_settle_mode);
        fields::trimming_keeps_items(f, 4);
        <ReceiverSettleMode as Field>::reads_back(v.rcv_settle_mode);
        fields::trimming_keeps_items(f, 5);
        fields::optional_reads_back::<Source>(t, 5, v.source);
        fields::trimming_keeps_items(f, 6);
        fields::optional_reads_back::<Target>(t, 6, v.target);
        fields::trimming_keeps_items(f, 7);
        fields::optional_reads_back::<Unsettled>(t, 7, v.unsettled);
        fields::trimming_keeps_items(f, 8);
        <bool as Field>::reads_back(v.incomplete_unsettled);
        fields::trimming_keeps_items(f, 9);
        fields::optional_reads_back::<u32>(t, 9, v.initial_delivery_count);
        fields::trimming_keeps_items(f, 10);
        fields::optional_reads_back::<u64>(t, 10, v.max_message_size);
        fields::trimming_keeps_items(f, 11);
        fields::optional_reads_back::<Vec<Symbol>>(t, 11, v.offered_capabilities);
        fields::trimming_keeps_items(f, 12);
        fields::optional_reads_back::<Vec<Symbol>>(t, 12, v.desired_capabilities);
        fields::trimming_keeps_items(f, 13);
        fields::optional_reads_back::<Fields>(t, 13, v.properties);
    }

    fn code_of() -> (code: u64) {
        ATTACH
    }

    fn write_fields(&self) -> (fields: Vec<AmqpValue>) {
        let fields = vec![
            self.name.to_value(),
            self.handle.to_value(),
            self.role.to_value(),
            self.snd_settle_mode.to_value(),
            self.rcv_settle_mode.to_value(),
            optional(&self.source),
            optional(&self.target),
            optional(&self.unsettled),
            self.incomplete_unsettled.to_value(),
            optional(&self.initial_delivery_count),
            optional(&self.max_message_size),
            optional(&self.offered_capabilities),
            optional(&self.desired_capabilities),
            optional(&self.properties),
        ];
        proof {
            assert(value::meanings(fields@) =~= Self::fields_of(self.deep_view()));
        }
        fields
    }

    fn read_fields(f: &Vec<AmqpValue>) -> (read: Result<Self, CodecFault>) {
        let name = read_required::<String>(f, ATTACH, 0)?;
        let handle = read_required::<u32>(f, ATTACH, 1)?;
        let role = read_plain::<Role>(f, 2)?;
        let snd_settle_mode = match read_optional::<SenderSettleMode>(f, 3)? {
            Some(snd_settle_mode) => snd_settle_mode,
            None => SenderSettleMode::Mixed,
        };
        let rcv_settle_mode = match read_optional::<ReceiverSettleMode>(f, 4)? {
            Some(rcv_settle_mode) => rcv_settle_mode,
            None => ReceiverSettleMode::First,
        };
        let source = read_optional::<Source>(f, 5)?;
        let target = read_optional::<Target>(f, 6)?;
        let unsettled = read_optional::<Unsettled>(f, 7)?;
        let incomplete_unsettled = match read_optional::<bool>(f, 8)? {
            Some(incomplete_unsettled) => incomplete_unsettled,
            None => false,
        };
        let initial_delivery_count = read_optional::<u32>(f, 9)?;
        let max_message_size = read_optional::<u64>(f, 10)?;
        let offered_capabilities = read_optional::<Vec<Symbol>>(f, 11)?;
        let desired_capabilities = read_optional::<Vec<Symbol>>(f, 12)?;
        let properties = read_optional::<Fields>(f, 13)?;
        Ok(
            Attach {
                name,
                handle,
                role,
                snd_settle_mode,
                rcv_settle_mode,
                source,
                target,
                unsettled,
                incomplete_unsettled,
                initial_delivery_count,
                max_message_size,
                offered_capabilities,
                desired_capabilities,
                properties,
            },
        )
    }
}

impl Composite for Flow {
    open spec fn code() -> u64 {
        FLOW
    }

    open spec fn sound_fields(v: FlowView) -> bool {
        &&& fields::sound_optional::<u32>(v.next_incoming_id)
        &&& <u32 as Field>::sound(v.incoming_window)
        &&& <u32 as Field>::sound(v.next_outgoing_id)
        &&& <u32 as Field>::sound(v.outgoing_window)
        &&& fields::sound_optional::<u32>(v.handle)
        &&& fields::sound_optional::<u32>(v.delivery_count)
        &&& fields::sound_optional::<u32>(v.link_credit)
        &&& fields::sound_optional::<u32>(v.available)
        &&& <bool as Field>::sound(v.drain)
        &&& <bool as Field>::sound(v.echo)
        &&& fields::sound_optional::<Fields>(v.properties)
    }

    open spec fn fields_of(v: FlowView) -> Seq<ValueView> {
        seq![
            fields::value_of_optional::<u32>(v.next_incoming_id),
            <u32 as Field>::value_of(v.incoming_window),
            <u32 as Field>::value_of(v.next_outgoing_id),
            <u32 as Field>::value_of(v.outgoing_window),
            fields::value_of_optional::<u32>(v.handle),
            fields::value_of_optional::<u32>(v.delivery_count),
            fields::value_of_optional::<u32>(v.link_credit),
            fields::value_of_optional::<u32>(v.available),
            <bool as Field>::value_of(v.drain),
            <bool as Field>::value_of(v.echo),
            fields::value_of_optional::<Fields>(v.properties),
        ]
    }

    open spec fn of_fields(f: Seq<ValueView>) -> Result<FlowView, CodecFault> {
        let next_incoming_id = fields::optional_at::<u32>(f, 0);
        let incoming_window = fields::required_at::<u32>(f, FLOW, 1);
        let next_outgoing_id = fields::required_at::<u32>(f, FLOW, 2);
        let outgoing_window = fields::required_at::<u32>(f, FLOW, 3);
        let handle = fields::optional_at::<u32>(f, 4);
        let delivery_count = fields::optional_at::<u32>(f, 5);
        let link_credit = fields::optional_at::<u32>(f, 6);
        let available = fields::optional_at::<u32>(f, 7);
        let drain = fields::optional_at::<bool>(f, 8);
        let echo = fields::optional_at::<bool>(f, 9);
        let properties = fields::optional_at::<Fields>(f, 10);
        let read = Ok(
            FlowView {
                next_incoming_id: next_incoming_id->Ok_0,
                incoming_window: incoming_window->Ok_0,
                next_outgoing_id: next_outgoing_id->Ok_0,
                outgoing_window: outgoing_window->Ok_0,
                handle: handle->Ok_0,
                delivery_count: delivery_count->Ok_0,
                link_credit: link_credit->Ok_0,
                available: available->Ok_0,
                drain: fields::or_default(drain->Ok_0, false),
                echo: fields::or_default(echo->Ok_0, false),
                properties: properties->Ok_0,
            },
        );
        let read = fields::unless_faulty(properties, read);
        let read = fields::unless_faulty(echo, read);
        let read = fields::unless_faulty(drain, read);
        let read = fields::unless_faulty(available, read);
        let read = fields::unless_faulty(link_credit, read);
        let read = fields::unless_faulty(delivery_count, read);
        let read = fields::unless_faulty(handle, read);
        let read = fields::unless_faulty(outgoing_window, read);
        let read = fields::unless_faulty(next_outgoing_id, read);
        let read = fields::unless_faulty(incoming_window, read);
        fields::unless_faulty(next_incoming_id, read)
    }

    proof fn fields_read_back(v: FlowView) {
        let f = Self::fields_of(v);
        let t = fields::trimmed(f);
        fields::trimming_keeps_items(f, 0);
        fields::optional_reads_back::<u32>(t, 0, v.next_incoming_id);
        fields::trimming_keeps_items(f, 1);
        <u32 as Field>::reads_back(v.incoming_window);
        fields::trimming_keeps_items(f, 2);
        <u32 as Field>::reads_back(v.next_outgoing_id);
        fields::trimming_keeps_items(f, 3);
        <u32 as Field>::reads_back(v.outgoing_window);
        fields::trimming_keeps_items(f, 4);
        fields::optional_reads_back::<u32>(t, 4, v.handle);
        fields::trimming_keeps_items(f, 5);
        fields::optional_reads_back::<u32>(t, 5, v.delivery_count);
        fields::trimming_keeps_items(f, 6);
        fields::optional_reads_back::<u32>(t, 6, v.link_credit);
        fields::trimming_keeps_items(f, 7);
        fields::optional_reads_back::<u32>(t, 7, v.available);
        fields::trimming_keeps_items(f, 8);
        <bool as Field>::reads_back(v.drain);
        fields::trimming_keeps_items(f, 9);
        <bool as Field>::reads_back(v.echo);
        fields::trimming_keeps_items(f, 10);
        fields::optional_reads_back::<Fields>(t, 10, v.properties);
    }

    fn code_of() -> (code: u64) {
        FLOW
    }

    fn write_fields(&self) -> (fields: Vec<AmqpValue>) {
        let fields = vec![
            optional(&self.next_incoming_id),
            self.incoming_window.to_value(),
            self.next_outgoing_id.to_value(),
            self.outgoing_window.to_value(),
            optional(&self.handle),
            optional(&self.delivery_count),
            optional(&self.link_credit),
            optional(&self.available),
            self.drain.to_value(),
            self.echo.to_value(),
            optional(&self.properties),
        ];
        proof {
            assert(value::meanings(fields@) =~= Self::fields_of(self.deep_view()));
        }
        fields
    }

    fn read_fields(f: &Vec<AmqpValue>) -> (read: Result<Self, CodecFault>) {
        let next_incoming_id = read_optional::<u32>(f, 0)?;
        let incoming_window = read_required::<u32>(f, FLOW, 1)?;
        let next_outgoing_id = read_required::<u32>(f, FLOW, 2)?;
        let outgoing_window = read_required::<u32>(f, FLOW, 3)?;
        let handle = read_optional::<u32>(f, 4)?;
        let delivery_count = read_optional::<u32>(f, 5)?;
        let link_credit = read_optional::<u32>(f, 6)?;
        let available = read_optional::<u32>(f, 7)?;
        let drain = match read_optional::<bool>(f, 8)? {
            Some(drain) => drain,
            None => false,
        };
        let echo = match read_optional::<bool>(f, 9)? {
            Some(echo) => echo,
            None => false,
        };
        let properties = read_optional::<Fields>(f, 10)?;
        Ok(
            Flow {
                next_incoming_id,
                incoming_window,
                next_outgoing_id,
                outgoing_window,
                handle,
                delivery_count,
                link_credit,
                available,
                drain,
                echo,
                properties,
            },
        )
    }
}

impl Composite for Transfer {
    open spec fn code() -> u64 {
        TRANSFER
    }

    open spec fn sound_fields(v: TransferView) -> bool {
        &&& <u32 as Field>::sound(v.handle)
        &&& fields::sound_optional::<u32>(v.delivery_id)
        &&& fields::sound_optional::<DeliveryTag>(v.delivery_tag)
        &&& fields::sound_optional::<u32>(v.message_format)
        &&& fields::sound_optional::<bool>(v.settled)
        &&& <bool as Field>::sound(v.more)
        &&& fields::sound_optional::<ReceiverSettleMode>(v.rcv_settle_mode)
        &&& fields::sound_optional::<DeliveryState>(v.state)
        &&& <bool as Field>::sound(v.resume)
        &&& <bool as Field>::sound(v.aborted)
        &&& <bool as Field>::sound(v.batchable)
    }

    open spec fn fields_of(v: TransferView) -> Seq<ValueView> {
        seq![
            <u32 as Field>::value_of(v.handle),
            fields::value_of_optional::<u32>(v.delivery_id),
            fields::value_of_optional::<DeliveryTag>(v.delivery_tag),
            fields::value_of_optional::<u32>(v.message_format),
            fields::value_of_optional::<bool>(v.settled),
            <bool as Field>::value_of(v.more),
            fields::value_of_optional::<ReceiverSettleMode>(v.rcv_settle_mode),
            fields::value_of_optional::<DeliveryState>(v.state),
            <bool as Field>::value_of(v.resume),
            <bool as Field>::value_of(v.aborted),
            <bool as Field>::value_of(v.batchable),
        ]
    }

    open spec fn of_fields(f: Seq<ValueView>) -> Result<TransferView, CodecFault> {
        let handle = fields::required_at::<u32>(f, TRANSFER, 0);
        let delivery_id = fields::optional_at::<u32>(f, 1);
        let delivery_tag = fields::optional_at::<DeliveryTag>(f, 2);
        let message_format = fields::optional_at::<u32>(f, 3);
        let settled = fields::optional_at::<bool>(f, 4);
        let more = fields::optional_at::<bool>(f, 5);
        let rcv_settle_mode = fields::optional_at::<ReceiverSettleMode>(f, 6);
        let state = fields::optional_at::<DeliveryState>(f, 7);
        let resume = fields::optional_at::<bool>(f, 8);
        let aborted = fields::optional_at::<bool>(f, 9);
        let batchable = fields::optional_at::<bool>(f, 10);
        let read = Ok(
            TransferView {
                handle: handle->Ok_0,
                delivery_id: delivery_id->Ok_0,
                delivery_tag: delivery_tag->Ok_0,
                message_format: message_format->Ok_0,
                settled: settled->Ok_0,
                more: fields::or_default(more->Ok_0, false),
                rcv_settle_mode: rcv_settle_mode->Ok_0,
                state: state->Ok_0,
                resume: fields::or_default(resume->Ok_0, false),
                aborted: fields::or_default(aborted->Ok_0, false),
                batchable: fields::or_default(batchable->Ok_0, false),
            },
        );
        let read = fields::unless_faulty(batchable, read);
        let read = fields::unless_faulty(aborted, read);
        let read = fields::unless_faulty(resume, read);
        let read = fields::unless_faulty(state, read);
        let read = fields::unless_faulty(rcv_settle_mode, read);
        let read = fields::unless_faulty(more, read);
        let read = fields::unless_faulty(settled, read);
        let read = fields::unless_faulty(message_format, read);
        let read = fields::unless_faulty(delivery_tag, read);
        let read = fields::unless_faulty(delivery_id, read);
        fields::unless_faulty(handle, read)
    }

    proof fn fields_read_back(v: TransferView) {
        let f = Self::fields_of(v);
        let t = fields::trimmed(f);
        fields::trimming_keeps_items(f, 0);
        <u32 as Field>::reads_back(v.handle);
        fields::trimming_keeps_items(f, 1);
        fields::optional_reads_back::<u32>(t, 1, v.delivery_id);
        fields::trimming_keeps_items(f, 2);
        fields::optional_reads_back::<DeliveryTag>(t, 2, v.delivery_tag);
        fields::trimming_keeps_items(f, 3);
        fields::optional_reads_back::<u32>(t, 3, v.message_format);
        fields::trimming_keeps_items(f, 4);
        fields::optional_reads_back::<bool>(t, 4, v.settled);
        fields::trimming_keeps_items(f, 5);
        <bool as Field>::reads_back(v.more);
        fields::trimming_keeps_items(f, 6);
        fields::optional_reads_back::<ReceiverSettleMode>(t, 6, v.rcv_settle_mode);
        fields::trimming_keeps_items(f, 7);
        fields::optional_reads_back::<DeliveryState>(t, 7, v.state);
        fields::trimming_keeps_items(f, 8);
        <bool as Field>::reads_back(v.resume);
        fields::trimming_keeps_items(f, 9);
        <bool as Field>::reads_back(v.aborted);
        fields::trimming_keeps_items(f, 10);
        <bool as Field>::reads_back(v.batchable);
    }

    fn code_of() -> (code: u64) {
        TRANSFER
    }

    fn write_fields(&self) -> (fields: Vec<AmqpValue>) {
        let fields = vec![
            self.handle.to_value(),
            optional(&self.delivery_id),
            optional(&self.delivery_tag),
            optional(&self.message_format),
            optional(&self.settled),
            self.more.to_value(),
            optional(&self.rcv_settle_mode),
            optional(&self.state),
            self.resume.to_value(),
            self.aborted.to_value(),
            self.batchable.to_value(),
        ];
        proof {
            assert(value::meanings(fields@) =~= Self::fields_of(self.deep_view()));
        }
        fields
    }

    fn read_fields(f: &Vec<AmqpValue>) -> (read: Result<Self, CodecFault>) {
        let handle = read_required::<u32>(f, TRANSFER, 0)?;
        let delivery_id = read_optional::<u32>(f, 1)?;
        let delivery_tag = read_optional::<DeliveryTag>(f, 2)?;
        let message_format = read_optional::<u32>(f, 3)?;
        let settled = read_optional::<bool>(f, 4)?;
        let more = match read_optional::<bool>(f, 5)? {
            Some(more) => more,
            None => false,
        };
        let rcv_settle_mode = read_optional::<ReceiverSettleMode>(f, 6)?;
        let state = read_optional::<DeliveryState>(f, 7)?;
        let resume = match read_optional::<bool>(f, 8)? {
            Some(resume) => resume,
            None => false,
        };
        let aborted = match read_optional::<bool>(f, 9)? {
            Some(aborted) => aborted,
            None => false,
        };
        let batchable = match read_optional::<bool>(f, 10)? {
            Some(batchable) => batchable,
            None => false,
        };
        Ok(
            Transfer {
                handle,
                delivery_id,
                delivery_tag,
                message_format,
                settled,
                more,
                rcv_settle_mode,
                state,
                resume,
                aborted,
                batchable,
            },
        )
    }
}

impl Composite for Disposition {
    open spec fn code() -> u64 {
        DISPOSITION
    }

    open spec fn sound_fields(v: DispositionView) -> bool {
        &&& <Role as Field>::sound(v.role)
        &&& <u32 as Field>::sound(v.first)
        &&& fields::sound_optional::<u32>(v.last)
        &&& <bool as Field>::sound(v.settled)
        &&& fields::sound_optional::<DeliveryState>(v.state)
        &&& <bool as Field>::sound(v.batchable)
    }

    open spec fn fields_of(v: DispositionView) -> Seq<ValueView> {
        seq![
            <Role as Field>::value_of(v.role),
            <u32 as Field>::value_of(v.first),
            fields::value_of_optional::<u32>(v.last),
            <bool as Field>::value_of(v.settled),
            fields::value_of_optional::<DeliveryState>(v.state),
            <bool as Field>::value_of(v.batchable),
        ]
    }

    open spec fn of_fields(f: Seq<ValueView>) -> Result<DispositionView, CodecFault> {
        let role = <Role as Field>::of_value(fields::item(f, 0));
        let first = fields::required_at::<u32>(f, DISPOSITION, 1);
        let last = fields::optional_at::<u32>(f, 2);
        let settled = fields::optional_at::<bool>(f, 3);
        let state = fields::optional_at::<DeliveryState>(f, 4);
        let batchable = fields::optional_at::<bool>(f, 5);
        let read = Ok(
            DispositionView {
                role: role->Ok_0,
                first: first->Ok_0,
                last: last->Ok_0,
                settled: fields::or_default(settled->Ok_0, false),
                state: state->Ok_0,
                batchable: fields::or_default(batchable->Ok_0, false),
            },
        );
        let read = fields::unless_faulty(batchable, read);
        let read = fields::unless_faulty(state, read);
        let read = fields::unless_faulty(settled, read);
        let read = fields::unless_faulty(last, read);
        let read = fields::unless_faulty(first, read);
        fields::unless_faulty(role, read)
    }

    proof fn fields_read_back(v: DispositionView) {
        let f = Self::fields_of(v);
        let t = fields::trimmed(f);
        fields::trimming_keeps_items(f, 0);
        <Role as Field>::reads_back(v.role);
        fields::trimming_keeps_items(f, 1);
        <u32 as Field>::reads_back(v.first);
        fields::trimming_keeps_items(f, 2);
        fields::optional_reads_back::<u32>(t, 2, v.last);
        fields::trimming_keeps_items(f, 3);
        <bool as Field>::reads_back(v.settled);
        fields::trimming_keeps_items(f, 4);
        fields::optional_reads_back::<DeliveryState>(t, 4, v.state);
        fields::trimming_keeps_items(f, 5);
        <bool as Field>::reads_back(v.batchable);
    }

    fn code_of() -> (code: u64) {
        DISPOSITION
    }

    fn write_fields(&self) -> (fields: Vec<AmqpValue>) {
        let fields = vec![
            self.role.to_value(),
            self.first.to_value(),
            optional(&self.last),
            self.settled.to_value(),
            optional(&self.state),
            self.batchable.to_value(),
        ];
        proof {
            assert(value::meanings(fields@) =~= Self::fields_of(self.deep_view()));
        }
        fields
    }

    fn read_fields(f: &Vec<AmqpValue>) -> (read: Result<Self, CodecFault>) {
        let role = read_plain::<Role>(f, 0)?;
        let first = read_required::<u32>(f, DISPOSITION, 1)?;
        let last = read_optional::<u32>(f, 2)?;
        let settled = match read_optional::<bool>(f, 3)? {
            Some(settled) => settled,
            None => false,
        };
        let state = read_optional::<DeliveryState>(f, 4)?;
        let batchable = match read_optional::<bool>(f, 5)? {
            Some(batchable) => batchable,
            None => false,
        };
        Ok(Disposition { role, first, last, settled, state, batchable })
    }
}

impl Composite for Detach {
    open spec fn code() -> u64 {
        DETACH
    }

    open spec fn sound_fields(v: DetachView) -> bool {
        &&& <u32 as Field>::sound(v.handle)
        &&& <bool as Field>::sound(v.closed)
        &&& fields::sound_optional::<Error>(v.error)
    }

    open spec fn fields_of(v: DetachView) -> Seq<ValueView> {
        seq![
            <u32 as Field>::value_of(v.handle),
            <bool as Field>::value_of(v.closed),
            fields::value_of_optional::<Error>(v.error),
        ]
    }

    open spec fn of_fields(f: Seq<ValueView>) -> Result<DetachView, CodecFault> {
        let handle = fields::required_at::<u32>(f, DETACH, 0);
        let closed = fields::optional_at::<bool>(f, 1);
        let error = fields::optional_at::<Error>(f, 2);
        let read = Ok(
            DetachView {
                handle: handle->Ok_0,
                closed: fields::or_default(closed->Ok_0, false),
                error: error->Ok_0,
            },
        );
        let read = fields::unless_faulty(error, read);
        let read = fields::unless_faulty(closed, read);
        fields::unless_faulty(handle, read)
    }

    proof fn fields_read_back(v: DetachView) {
        let f = Self::fields_of(v);
        let t = fields::trimmed(f);
        fields::trimming_keeps_items(f, 0);
        <u32 as Field>::reads_back(v.handle);
        fields::trimming_keeps_items(f, 1);
        <bool as Field>::reads_back(v.closed);
        fields::trimming_keeps_items(f, 2);
        fields::optional_reads_back::<Error>(t, 2, v.error);
    }

    fn code_of() -> (code: u64) {
        DETACH
    }

    fn write_fields(&self) -> (fields: Vec<AmqpValue>) {
        let fields = vec![
            self.handle.to_value(),
            self.closed.to_value(),
            optional(&self.error),
        ];
        proof {
            assert(value::meanings(fields@) =~= Self::fields_of(self.deep_view()));
        }
        fields
    }

    fn read_fields(f: &Vec<AmqpValue>) -> (read: Result<Self, CodecFault>) {
        let handle = read_required::<u32>(f, DETACH, 0)?;
        let closed = match read_optional::<bool>(f, 1)? {
            Some(closed) => closed,
            None => false,
        };
        let error = read_optional::<Error>(f, 2)?;
        Ok(Detach { handle, closed, error })
    }
}

impl Composite for End {
    open spec fn code() -> u64 {
        END
    }

    open spec fn sound_fields(v: EndView) -> bool {
        &&& fields::sound_optional::<Error>(v.error)
    }

    open spec fn fields_of(v: EndView) -> Seq<ValueView> {
        seq![
            fields::value_of_optional::<Error>(v.error),
        ]
    }

    open spec fn of_fields(f: Seq<ValueView>) -> Result<EndView, CodecFault> {
        match fields::optional_at::<Error>(f, 0) {
            Err(fault) => Err(fault),
            Ok(error) => Ok(EndView { error }),
        }
    }

    proof fn fields_read_back(v: EndView) {
        let f = Self::fields_of(v);
        let t = fields::trimmed(f);
        fields::trimming_keeps_items(f, 0);
        fields::optional_reads_back::<Error>(t, 0, v.error);
    }

    fn code_of() -> (code: u64) {
        END
    }

    fn write_fields(&self) -> (fields: Vec<AmqpValue>) {
        let fields = vec![
            optional(&self.error),
        ];
        proof {
            assert(value::meanings(fields@) =~= Self::fields_of(self.deep_view()));
        }
        fields
    }

    fn read_fields(f: &Vec<AmqpValue>) -> (read: Result<Self, CodecFault>) {
        let error = read_optional::<Error>(f, 0)?;
        Ok(End { error })
    }
}

impl Composite for Close {
    open spec fn code() -> u64 {
        CLOSE
    }

    open spec fn sound_fields(v: CloseView) -> bool {
        &&& fields::sound_optional::<Error>(v.error)
    }

    open spec fn fields_of(v: CloseView) -> Seq<ValueView> {
        seq![
            fields::value_of_optional::<Error>(v.error),
        ]
    }

    open spec fn of_fields(f: Seq<ValueView>) -> Result<CloseView, CodecFault> {
        match fields::optional_at::<Error>(f, 0) {
            Err(fault) => Err(fault),
            Ok(error) => Ok(CloseView { error }),
        }
    }

    proof fn fields_read_back(v: CloseView) {
        let f = Self::fields_of(v);
        let t = fields::trimmed(f);
        fields::trimming_keeps_items(f, 0);
        fields::optional_reads_back::<Error>(t, 0, v.error);
    }

    fn code_of() -> (code: u64) {
        CLOSE
    }

    fn write_fields(&self) -> (fields: Vec<AmqpValue>) {
        let fields = vec![
            optional(&self.error),
        ];
        proof {
            assert(value::meanings(fields@) =~= Self::fields_of(self.deep_view()));
        }
        fields
    }

    fn read_fields(f: &Vec<AmqpValue>) -> (read: Result<Self, CodecFault>) {
        let error = read_optional::<Error>(f, 0)?;
        Ok(Close { error })
    }
}

impl Composite for Header {
    open spec fn code() -> u64 {
        HEADER
    }

    open spec fn sound_fields(v: HeaderView) -> bool {
        &&& <bool as Field>::sound(v.durable)
        &&& <u8 as Field>::sound(v.priority)
        &&& fields::sound_optional::<u32>(v.ttl)
        &&& <bool as Field>::sound(v.first_acquirer)
        &&& <u32 as Field>::sound(v.delivery_count)
    }

    open spec fn fields_of(v: HeaderView) -> Seq<ValueView> {
        seq![
            <bool as Field>::value_of(v.durable),
            <u8 as Field>::value_of(v.priority),
            fields::value_of_optional::<u32>(v.ttl),
            <bool as Field>::value_of(v.first_acquirer),
            <u32 as Field>::value_of(v.delivery_count),
        ]
    }

    open spec fn of_fields(f: Seq<ValueView>) -> Result<HeaderView, CodecFault> {
        let durable = fields::optional_at::<bool>(f, 0);
        let priority = fields::optional_at::<u8>(f, 1);
        let ttl = fields::optional_at::<u32>(f, 2);
        let first_acquirer = fields::optional_at::<bool>(f, 3);
        let delivery_count = fields::optional_at::<u32>(f, 4);
        let read = Ok(
            HeaderView {
                durable: fields::or_default(durable->Ok_0, false),
                priority: fields::or_default(priority->Ok_0, 4u8),
                ttl: ttl->Ok_0,
                first_acquirer: fields::or_default(first_acquirer->Ok_0, false),
                delivery_count: fields::or_default(delivery_count->Ok_0, 0u32),
            },
        );
        let read = fields::unless_faulty(delivery_count, read);
        let read = fields::unless_faulty(first_acquirer, read);
        let read = fields::unless_faulty(ttl, read);
        let read = fields::unless_faulty(priority, read);
        fields::unless_faulty(durable, read)
    }

    proof fn fields_read_back(v: HeaderView) {
        let f = Self::fields_of(v);
        let t = fields::trimmed(f);
        fields::trimming_keeps_items(f, 0);
        <bool as Field>::reads_back(v.durable);
        fields::trimming_keeps_items(f, 1);
        <u8 as Field>::reads_back(v.priority);
        fields::trimming_keeps_items(f, 2);
        fields::optional_reads_back::<u32>(t, 2, v.ttl);
        fields::trimming_keeps_items(f, 3);
        <bool as Field>::reads_back(v.first_acquirer);
        fields::trimming_keeps_items(f, 4);
        <u32 as Field>::reads_back(v.delivery_count);
    }

    fn code_of() -> (code: u64) {
        HEADER
    }

    fn write_fields(&self) -> (fields: Vec<AmqpValue>) {
        let fields = vec![
            self.durable.to_value(),
            self.priority.to_value(),
            optional(&self.ttl),
            self.first_acquirer.to_value(),
            self.delivery_count.to_value(),
        ];
        proof {
            assert(value::meanings(fields@) =~= Self::fields_of(self.deep_view()));
        }
        fields
    }

    fn read_fields(f: &Vec<AmqpValue>) -> (read: Result<Self, CodecFault>) {
        let durable = match read_optional::<bool>(f, 0)? {
            Some(durable) => durable,
            None => false,
        };
        let priority = match read_optional::<u8>(f, 1)? {
            Some(priority) => priority,
            None => 4u8,
        };
        let ttl = read_optional::<u32>(f, 2)?;
        let first_acquirer = match read_optional::<bool>(f, 3)? {
            Some(first_acquirer) => first_acquirer,
            None => false,
        };
        let delivery_count = match read_optional::<u32>(f, 4)? {
            Some(delivery_count) => delivery_count,
            None => 0u32,
        };
        Ok(Header { durable, priority, ttl, first_acquirer, delivery_count })
    }
}

impl Composite for Properties {
    open spec fn code() -> u64 {
        PROPERTIES
    }

    open spec fn sound_fields(v: PropertiesView) -> bool {
        &&& fields::sound_optional::<MessageId>(v.message_id)
        &&& fields::sound_optional::<Vec<u8>>(v.user_id)
        &&& fields::sound_optional::<String>(v.to)
        &&& fields::sound_optional::<String>(v.subject)
        &&& fields::sound_optional::<String>(v.reply_to)
        &&& fields::sound_optional::<MessageId>(v.correlation_id)
        &&& fields::sound_optional::<Symbol>(v.content_type)
        &&& fields::sound_optional::<Symbol>(v.content_encoding)
        &&& fields::sound_optional::<i64>(v.absolute_expiry_time)
        &&& fields::sound_optional::<i64>(v.creation_time)
        &&& fields::sound_optional::<String>(v.group_id)
        &&& fields::sound_optional::<u32>(v.group_sequence)
        &&& fields::sound_optional::<String>(v.reply_to_group_id)
    }

    open spec fn fields_of(v: PropertiesView) -> Seq<ValueView> {
        seq![
            fields::value_of_optional::<MessageId>(v.message_id),
            fields::value_of_optional::<Vec<u8>>(v.user_id),
            fields::value_of_optional::<String>(v.to),
            fields::value_of_optional::<String>(v.subject),
            fields::value_of_optional::<String>(v.reply_to),
            fields::value_of_optional::<MessageId>(v.correlation_id),
            fields::value_of_optional::<Symbol>(v.content_type),
            fields::value_of_optional::<Symbol>(v.content_encoding),
            fields::value_of_optional::<i64>(v.absolute_expiry_time),
            fields::value_of_optional::<i64>(v.creation_time),
            fields::value_of_optional::<String>(v.group_id),
            fields::value_of_optional::<u32>(v.group_sequence),
            fields::value_of_optional::<String>(v.reply_to_group_id),
        ]
    }

    open spec fn of_fields(f: Seq<ValueView>) -> Result<PropertiesView, CodecFault> {
        let message_id = fields::optional_at::<MessageId>(f, 0);
        let user_id = fields::optional_at::<Vec<u8>>(f, 1);
        let to = fields::optional_at::<String>(f, 2);
        let subject = fields::optional_at::<String>(f, 3);
        let reply_to = fields::optional_at::<String>(f, 4);
        let correlation_id = fields::optional_at::<MessageId>(f, 5);
        let content_type = fields::optional_at::<Symbol>(f, 6);
        let content_encoding = fields::optional_at::<Symbol>(f, 7);
        let absolute_expiry_time = fields::optional_at::<i64>(f, 8);
        let creation_time = fields::optional_at::<i64>(f, 9);
        let group_id = fields::optional_at::<String>(f, 10);
        let group_sequence = fields::optional_at::<u32>(f, 11);
        let reply_to_group_id = fields::optional_at::<String>(f, 12);
        let read = Ok(
            PropertiesView {
                message_id: message_id->Ok_0,
                user_id: user_id->Ok_0,
                to: to->Ok_0,
                subject: subject->Ok_0,
                reply_to: reply_to->Ok_0,
                correlation_id: correlation_id->Ok_0,
                content_type: content_type->Ok_0,
                content_encoding: content_encoding->Ok_0,
                absolute_expiry_time: absolute_expiry_time->Ok_0,
                creation_time: creation_time->Ok_0,
                group_id: group_id->Ok_0,
                group_sequence: group_sequence->Ok_0,
                reply_to_group_id: reply_to_group_id->Ok_0,
            },
        );
        let read = fields::unless_faulty(reply_to_group_id, read);
        let read = fields::unless_faulty(group_sequence, read);
        let read = fields::unless_faulty(group_id, read);
        let read = fields::unless_faulty(creation_time, read);
        let read = fields::unless_faulty(absolute_expiry_time, read);
        let read = fields::unless_faulty(content_encoding, read);
        let read = fields::unless_faulty(content_type, read);
        let read = fields::unless_faulty(correlation_id, read);
        let read = fields::unless_faulty(reply_to, read);
        let read = fields::unless_faulty(subject, read);
        let read = fields::unless_faulty(to, read);
        let read = fields::unless_faulty(user_id, read);
        fields::unless_faulty(message_id, read)
    }

    proof fn fields_read_back(v: PropertiesView) {
        let f = Self::fields_of(v);
        let t = fields::trimmed(f);
        fields::trimming_keeps_items(f, 0);
        fields::optional_reads_back::<MessageId>(t, 0, v.message_id);
        fields::trimming_keeps_items(f, 1);
        fields::optional_reads_back::<Vec<u8>>(t, 1, v.user_id);
        fields::trimming_keeps_items(f, 2);
        fields::optional_reads_back::<String>(t, 2, v.to);
        fields::trimming_keeps_items(f, 3);
        fields::optional_reads_back::<String>(t, 3, v.subject);
        fields::trimming_keeps_items(f, 4);
        fields::optional_reads_back::<String>(t, 4, v.reply_to);
        fields::trimming_keeps_items(f, 5);
        fields::optional_reads_back::<MessageId>(t, 5, v.correlation_id);
        fields::trimming_keeps_items(f, 6);
        fields::optional_reads_back::<Symbol>(t, 6, v.content_type);
        fields::trimming_keeps_items(f, 7);
        fields::optional_reads_back::<Symbol>(t, 7, v.content_encoding);
        fields::trimming_keeps_items(f, 8);
        fields::optional_reads_back::<i64>(t, 8, v.absolute_expiry_time);
        fields::trimming_keeps_items(f, 9);
        fields::optional_reads_back::<i64>(t, 9, v.creation_time);
        fields::trimming_keeps_items(f, 10);
        fields::optional_reads_back::<String>(t, 10, v.group_id);
        fields::trimming_keeps_items(f, 11);
        fields::optional_reads_back::<u32>(t, 11, v.group_sequence);
        fields::trimming_keeps_items(f, 12);
        fields::optional_reads_back::<String>(t, 12, v.reply_to_group_id);
    }

    fn code_of() -> (code: u64) {
        PROPERTIES
    }

    fn write_fields(&self) -> (fields: Vec<AmqpValue>) {
        let fields = vec![
            optional(&self.message_id),
            optional(&self.user_id),
            optional(&self.to),
            optional(&self.subject),
            optional(&self.reply_to),
            optional(&self.correlation_id),
            optional(&self.content_type),
            optional(&self.content_encoding),
            optional(&self.absolute_expiry_time),
            optional(&self.creation_time),
            optional(&self.group_id),
            optional(&self.group_sequence),
            optional(&self.reply_to_group_id),
        ];
        proof {
            assert(value::meanings(fields@) =~= Self::fields_of(self.deep_view()));
        }
        fields
    }

    fn read_fields(f: &Vec<AmqpValue>) -> (read: Result<Self, CodecFault>) {
        let message_id = read_optional::<MessageId>(f, 0)?;
        let user_id = read_optional::<Vec<u8>>(f, 1)?;
        let to = read_optional::<String>(f, 2)?;
        let subject = read_optional::<String>(f, 3)?;
        let reply_to = read_optional::<String>(f, 4)?;
        let correlation_id = read_optional::<MessageId>(f, 5)?;
        let content_type = read_optional::<Symbol>(f, 6)?;
        let content_encoding = read_optional::<Symbol>(f, 7)?;
        let absolute_expiry_time = read_optional::<i64>(f, 8)?;
        let creation_time = read_optional::<i64>(f, 9)?;
        let group_id = read_optional::<String>(f, 10)?;
        let group_sequence = read_optional::<u32>(f, 11)?;
        let reply_to_group_id = read_optional::<String>(f, 12)?;
        Ok(
            Properties {
                message_id,
                user_id,
                to,
                subject,
                reply_to,
                correlation_id,
                content_type,
                content_encoding,
                absolute_expiry_time,
                creation_time,
                group_id,
                group_sequence,
                reply_to_group_id,
            },
        )
    }
}

impl Composite for SaslMechanisms {
    open spec fn code() -> u64 {
        SASL_MECHANISMS
    }

    open spec fn sound_fields(v: SaslMechanismsView) -> bool {
        &&& <Vec<Symbol> as Field>::sound(v.mechanisms)
    }

    open spec fn fields_of(v: SaslMechanismsView) -> Seq<ValueView> {
        seq![
            <Vec<Symbol> as Field>::value_of(v.mechanisms),
        ]
    }

    open spec fn of_fields(f: Seq<ValueView>) -> Result<SaslMechanismsView, CodecFault> {
        match fields::required_at::<Vec<Symbol>>(f, SASL_MECHANISMS, 0) {
            Err(fault) => Err(fault),
            Ok(mechanisms) => Ok(SaslMechanismsView { mechanisms }),
        }
    }

    proof fn fields_read_back(v: SaslMechanismsView) {
        let f = Self::fields_of(v);
        let t = fields::trimmed(f);
        fields::trimming_keeps_items(f, 0);
        <Vec<Symbol> as Field>::reads_back(v.mechanisms);
    }

    fn code_of() -> (code: u64) {
        SASL_MECHANISMS
    }

    fn write_fields(&self) -> (fields: Vec<AmqpValue>) {
        let fields = vec![
            self.mechanisms.to_value(),
        ];
        proof {
            assert(value::meanings(fields@) =~= Self::fields_of(self.deep_view()));
        }
        fields
    }

    fn read_fields(f: &Vec<AmqpValue>) -> (read: Result<Self, CodecFault>) {
        let mechanisms = read_required::<Vec<Symbol>>(f, SASL_MECHANISMS, 0)?;
        Ok(SaslMechanisms { mechanisms })
    }
}

impl Composite for SaslInit {
    open spec fn code() -> u64 {
        SASL_INIT
    }

    open spec fn sound_fields(v: SaslInitView) -> bool {
        &&& <Symbol as Field>::sound(v.mechanism)
        &&& fields::sound_optional::<Vec<u8>>(v.initial_response)
        &&& fields::sound_optional::<String>(v.hostname)
    }

    open spec fn fields_of(v: SaslInitView) -> Seq<ValueView> {
        seq![
            <Symbol as Field>::value_of(v.mechanism),
            fields::value_of_optional::<Vec<u8>>(v.initial_response),
            fields::value_of_optional::<String>(v.hostname),
        ]
    }

    open spec fn of_fields(f: Seq<ValueView>) -> Result<SaslInitView, CodecFault> {
        let mechanism = <Symbol as Field>::of_value(fields::item(f, 0));
        let initial_response = fields::optional_at::<Vec<u8>>(f, 1);
        let hostname = fields::optional_at::<String>(f, 2);
        let read = Ok(
            SaslInitView {
                mechanism: mechanism->Ok_0,
                initial_response: initial_response->Ok_0,
                hostname: hostname->Ok_0,
            },
        );
        let read = fields::unless_faulty(hostname, read);
        let read = fields::unless_faulty(initial_response, read);
        fields::unless_faulty(mechanism, read)
    }

    proof fn fields_read_back(v: SaslInitView) {
        let f = Self::fields_of(v);
        let t = fields::trimmed(f);
        fields::trimming_keeps_items(f, 0);
        <Symbol as Field>::reads_back(v.mechanism);
        fields::trimming_keeps_items(f, 1);
        fields::optional_reads_back::<Vec<u8>>(t, 1, v.initial_response);
        fields::trimming_keeps_items(f, 2);
        fields::optional_reads_back::<String>(t, 2, v.hostname);
    }

    fn code_of() -> (code: u64) {
        SASL_INIT
    }

    fn write_fields(&self) -> (fields: Vec<AmqpValue>) {
        let fields = vec![
            self.mechanism.to_value(),
            optional(&self.initial_response),
            optional(&self.hostname),
        ];
        proof {
            assert(value::meanings(fields@) =~= Self::fields_of(self.deep_view()));
        }
        fields
    }

    fn read_fields(f: &Vec<AmqpValue>) -> (read: Result<Self, CodecFault>) {
        let mechanism = read_plain::<Symbol>(f, 0)?;
        let initial_response = read_optional::<Vec<u8>>(f, 1)?;
        let hostname = read_optional::<String>(f, 2)?;
        Ok(SaslInit { mechanism, initial_response, hostname })
    }
}

impl Composite for SaslChallenge {
    open spec fn code() -> u64 {
        SASL_CHALLENGE
    }

    open spec fn sound_fields(v: SaslChallengeView) -> bool {
        &&& <Vec<u8> as Field>::sound(v.challenge)
    }

    open spec fn fields_of(v: SaslChallengeView) -> Seq<ValueView> {
        seq![
            <Vec<u8> as Field>::value_of(v.challenge),
        ]
    }

    open spec fn of_fields(f: Seq<ValueView>) -> Result<SaslChallengeView, CodecFault> {
        match fields::required_at::<Vec<u8>>(f, SASL_CHALLENGE, 0) {
            Err(fault) => Err(fault),
            Ok(challenge) => Ok(SaslChallengeView { challenge }),
        }
    }

    proof fn fields_read_back(v: SaslChallengeView) {
        let f = Self::fields_of(v);
        let t = fields::trimmed(f);
        fields::trimming_keeps_items(f, 0);
        <Vec<u8> as Field>::reads_back(v.challenge);
    }

    fn code_of() -> (code: u64) {
        SASL_CHALLENGE
    }

    fn write_fields(&self) -> (fields: Vec<AmqpValue>) {
        let fields = vec![
            self.challenge.to_value(),
        ];
        proof {
            assert(value::meanings(fields@) =~= Self::fields_of(self.deep_view()));
        }
        fields
    }

    fn read_fields(f: &Vec<AmqpValue>) -> (read: Result<Self, CodecFault>) {
        let challenge = read_required::<Vec<u8>>(f, SASL_CHALLENGE, 0)?;
        Ok(SaslChallenge { challenge })
    }
}

impl Composite for SaslResponse {
    open spec fn code() -> u64 {
        SASL_RESPONSE
    }

    open spec fn sound_fields(v: SaslResponseView) -> bool {
        &&& <Vec<u8> as Field>::sound(v.response)
    }

    open spec fn fields_of(v: SaslResponseView) -> Seq<ValueView> {
        seq![
            <Vec<u8> as Field>::value_of(v.response),
        ]
    }

    open spec fn of_fields(f: Seq<ValueView>) -> Result<SaslResponseView, CodecFault> {
        match fields::required_at::<Vec<u8>>(f, SASL_RESPONSE, 0) {
            Err(fault) => Err(fault),
            Ok(response) => Ok(SaslResponseView { response }),
        }
    }

    proof fn fields_read_back(v: SaslResponseView) {
        let f = Self::fields_of(v);
        let t = fields::trimmed(f);
        fields::trimming_keeps_items(f, 0);
        <Vec<u8> as Field>::reads_back(v.response);
    }

    fn code_of() -> (code: u64) {
        SASL_RESPONSE
    }

    fn write_fields(&self) -> (fields: Vec<AmqpValue>) {
        let fields = vec![
            self.response.to_value(),
        ];
        proof {
            assert(value::meanings(fields@) =~= Self::fields_of(self.deep_view()));
        }
        fields
    }

    fn read_fields(f: &Vec<AmqpValue>) -> (read: Result<Self, CodecFault>) {
        let response = read_required::<Vec<u8>>(f, SASL_RESPONSE, 0)?;
        Ok(SaslResponse { response })
    }
}

impl Composite for SaslOutcome {
    open spec fn code() -> u64 {
        SASL_OUTCOME
    }

    open spec fn sound_fields(v: SaslOutcomeView) -> bool {
        &&& <SaslCode as Field>::sound(v.code)
        &&& fields::sound_optional::<Vec<u8>>(v.additional_data)
    }

    open spec fn fields_of(v: SaslOutcomeView) -> Seq<ValueView> {
        seq![
            <SaslCode as Field>::value_of(v.code),
            fields::value_of_optional::<Vec<u8>>(v.additional_data),
        ]
    }

    open spec fn of_fields(f: Seq<ValueView>) -> Result<SaslOutcomeView, CodecFault> {
        let code = <SaslCode as Field>::of_value(fields::item(f, 0));
        let additional_data = fields::optional_at::<Vec<u8>>(f, 1);
        let read = Ok(
            SaslOutcomeView {
                code: code->Ok_0,
                additional_data: additional_data->Ok_0,
            },
        );
        let read = fields::unless_faulty(additional_data, read);
        fields::unless_faulty(code, read)
    }

    proof fn fields_read_back(v: SaslOutcomeView) {
        let f = Self::fields_of(v);
        let t = fields::trimmed(f);
        fields::trimming_keeps_items(f, 0);
        <SaslCode as Field>::reads_back(v.code);
        fields::trimming_keeps_items(f, 1);
        fields::optional_reads_back::<Vec<u8>>(t, 1, v.additional_data);
    }

    fn code_of() -> (code: u64) {
        SASL_OUTCOME
    }

    fn write_fields(&self) -> (fields: Vec<AmqpValue>) {
        let fields = vec![
            self.code.to_value(),
            optional(&self.additional_data),
        ];
        proof {
            assert(value::meanings(fields@) =~= Self::fields_of(self.deep_view()));
        }
        fields
    }

    fn read_fields(f: &Vec<AmqpValue>) -> (read: Result<Self, CodecFault>) {
        let code = read_plain::<SaslCode>(f, 0)?;
        let additional_data = read_optional::<Vec<u8>>(f, 1)?;
        Ok(SaslOutcome { code, additional_data })
    }
}

// ---- error conditions, delivery states and keys ----------------------------

impl Field for ErrorCondition {
    /// A custom condition is not one of those that AMQP names.
    open spec fn sound(v: ErrorConditionView) -> bool {
        match v {
            ErrorConditionView::Amqp(_) => true,
            ErrorConditionView::Custom(text) => types::named_error(text) is None,
        }
    }

    open spec fn value_of(v: ErrorConditionView) -> ValueView {
        ValueView::Symbol(types::condition_text(v))
    }

    open spec fn of_value(v: ValueView) -> Result<ErrorConditionView, CodecFault> {
        match v {
            ValueView::Symbol(text) => match types::named_error(text) {
                Some(error) => Ok(ErrorConditionView::Amqp(error)),
                None => Ok(ErrorConditionView::Custom(text)),
            },
            _ => Err(CodecFault::NotSymbol),
        }
    }

    proof fn reads_back(v: ErrorConditionView) {
        if let ErrorConditionView::Amqp(error) = v {
            types::an_error_condition_is_told_by_its_symbol(error);
        }
    }

    fn to_value(&self) -> (value: AmqpValue) {
        AmqpValue::Symbol(self.as_symbol())
    }

    fn from_value(value: &AmqpValue) -> (read: Result<Self, CodecFault>) {
        match value {
            AmqpValue::Symbol(symbol) => match AmqpError::from_symbol(symbol.as_str()) {
                Some(error) => Ok(ErrorCondition::Amqp(error)),
                None => Ok(ErrorCondition::Custom(symbol.clone())),
            },
            _ => Err(CodecFault::NotSymbol),
        }
    }
}

impl Field for DeliveryState {
    open spec fn sound(v: DeliveryStateView) -> bool {
        match v {
            DeliveryStateView::Rejected(rejected) => Rejected::sound_fields(rejected),
            DeliveryStateView::Modified(modified) => Modified::sound_fields(modified),
            _ => true,
        }
    }

    open spec fn value_of(v: DeliveryStateView) -> ValueView {
        match v {
            DeliveryStateView::Received {
                section_number,
                section_offset,
            } => fields::described_list(
                RECEIVED,
                seq![ValueView::Uint(section_number), ValueView::Ulong(section_offset)],
            ),
            DeliveryStateView::Accepted => fields::described_list(ACCEPTED, Seq::empty()),
            DeliveryStateView::Rejected(rejected) => composite_value::<Rejected>(rejected),
            DeliveryStateView::Released => fields::described_list(RELEASED, Seq::empty()),
            DeliveryStateView::Modified(modified) => composite_value::<Modified>(modified),
        }
    }

    open spec fn of_value(v: ValueView) -> Result<DeliveryStateView, CodecFault> {
        match fields::taken_fields(v) {
            Err(fault) => Err(fault),
            Ok((code, f)) => if code == RECEIVED {
                match fields::required_at::<u32>(f, RECEIVED, 0) {
                    Err(fault) => Err(fault),
                    Ok(section_number) => match fields::required_at::<u64>(f, RECEIVED, 1) {
                        Err(fault) => Err(fault),
                        Ok(section_offset) => Ok(
                            DeliveryStateView::Received { section_number, section_offset },
                        ),
                    },
                }
            } else if code == ACCEPTED {
                Ok(DeliveryStateView::Accepted)
            } else if code == REJECTED {
                match Rejected::of_fields(f) {
                    Err(fault) => Err(fault),
                    Ok(rejected) => Ok(DeliveryStateView::Rejected(rejected)),
                }
            } else if code == RELEASED {
                Ok(DeliveryStateView::Released)
            } else if code == MODIFIED {
                match Modified::of_fields(f) {
                    Err(fault) => Err(fault),
                    Ok(modified) => Ok(DeliveryStateView::Modified(modified)),
                }
            } else {
                Err(CodecFault::UnknownDeliveryState(code))
            },
        }
    }

    proof fn reads_back(v: DeliveryStateView) {
        match v {
            DeliveryStateView::Received { section_number, section_offset } => {
                let f = seq![ValueView::Uint(section_number), ValueView::Ulong(section_offset)];
                fields::trimming_keeps_items(f, 0);
                fields::trimming_keeps_items(f, 1);
            },
            DeliveryStateView::Rejected(rejected) => Rejected::fields_read_back(rejected),
            DeliveryStateView::Modified(modified) => Modified::fields_read_back(modified),
            _ => {},
        }
    }

    fn to_value(&self) -> (value: AmqpValue) {
        match self {
            DeliveryState::Received { section_number, section_offset } => {
                let f = vec![AmqpValue::Uint(*section_number), AmqpValue::Ulong(*section_offset)];
                proof {
                    assert(value::meanings(f@) =~= seq![
                        ValueView::Uint(*section_number),
                        ValueView::Ulong(*section_offset),
                    ]);
                }
                described(RECEIVED, list(f))
            },
            DeliveryState::Accepted(_) => {
                let f: Vec<AmqpValue> = Vec::new();
                proof {
                    assert(value::meanings(f@) =~= Seq::<ValueView>::empty());
                }
                described(ACCEPTED, list(f))
            },
            DeliveryState::Rejected(rejected) => write_composite(rejected),
            DeliveryState::Released(_) => {
                let f: Vec<AmqpValue> = Vec::new();
                proof {
                    assert(value::meanings(f@) =~= Seq::<ValueView>::empty());
                }
                described(RELEASED, list(f))
            },
            DeliveryState::Modified(modified) => write_composite(modified),
        }
    }

    fn from_value(value: &AmqpValue) -> (read: Result<Self, CodecFault>) {
        let (code, f) = take_fields(value)?;
        if code == RECEIVED {
            let section_number = read_required::<u32>(f, RECEIVED, 0)?;
            let section_offset = read_required::<u64>(f, RECEIVED, 1)?;
            Ok(DeliveryState::Received { section_number, section_offset })
        } else if code == ACCEPTED {
            Ok(DeliveryState::Accepted(Accepted))
        } else if code == REJECTED {
            let rejected = Rejected::read_fields(f)?;
            Ok(DeliveryState::Rejected(rejected))
        } else if code == RELEASED {
            Ok(DeliveryState::Released(Released))
        } else if code == MODIFIED {
            let modified = Modified::read_fields(f)?;
            Ok(DeliveryState::Modified(modified))
        } else {
            Err(CodecFault::UnknownDeliveryState(code))
        }
    }
}

impl Field for MessageId {
    open spec fn sound(v: MessageIdView) -> bool {
        true
    }

    open spec fn value_of(v: MessageIdView) -> ValueView {
        match v {
            MessageIdView::Ulong(id) => ValueView::Ulong(id),
            MessageIdView::Uuid(id) => ValueView::Uuid(id),
            MessageIdView::Binary(id) => ValueView::Binary(id),
            MessageIdView::String(id) => ValueView::String(id),
        }
    }

    open spec fn of_value(v: ValueView) -> Result<MessageIdView, CodecFault> {
        match v {
            ValueView::Ulong(id) => Ok(MessageIdView::Ulong(id)),
            ValueView::Uuid(id) => Ok(MessageIdView::Uuid(id)),
            ValueView::Binary(id) => Ok(MessageIdView::Binary(id)),
            ValueView::String(id) => Ok(MessageIdView::String(id)),
            _ => Err(CodecFault::NotMessageId),
        }
    }

    proof fn reads_back(v: MessageIdView) {
    }

    fn to_value(&self) -> (value: AmqpValue) {
        match self {
            MessageId::Ulong(id) => AmqpValue::Ulong(*id),
            MessageId::Uuid(id) => AmqpValue::Uuid(*id),
            MessageId::Binary(id) => AmqpValue::Binary(crate::bytes::copy_bytes(id.as_slice())),
            MessageId::String(id) => AmqpValue::String(id.clone()),
        }
    }

    fn from_value(value: &AmqpValue) -> (read: Result<Self, CodecFault>) {
        match value {
            AmqpValue::Ulong(id) => Ok(MessageId::Ulong(*id)),
            AmqpValue::Uuid(id) => Ok(MessageId::Uuid(*id)),
            AmqpValue::Binary(id) => Ok(MessageId::Binary(crate::bytes::copy_bytes(id.as_slice()))),
            AmqpValue::String(id) => Ok(MessageId::String(id.clone())),
            _ => Err(CodecFault::NotMessageId),
        }
    }
}

impl Field for AnnotationKey {
    open spec fn sound(v: AnnotationKeyView) -> bool {
        true
    }

    open spec fn value_of(v: AnnotationKeyView) -> ValueView {
        match v {
            AnnotationKeyView::Symbol(key) => ValueView::Symbol(key),
            AnnotationKeyView::Ulong(key) => ValueView::Ulong(key),
        }
    }

    open spec fn of_value(v: ValueView) -> Result<AnnotationKeyView, CodecFault> {
        match v {
            ValueView::Symbol(key) => Ok(AnnotationKeyView::Symbol(key)),
            ValueView::Ulong(key) => Ok(AnnotationKeyView::Ulong(key)),
            _ => Err(CodecFault::NotAnnotationKey),
        }
    }

    proof fn reads_back(v: AnnotationKeyView) {
    }

    fn to_value(&self) -> (value: AmqpValue) {
        match self {
            AnnotationKey::Symbol(key) => AmqpValue::Symbol(key.clone()),
            AnnotationKey::Ulong(key) => AmqpValue::Ulong(*key),
        }
    }

    fn from_value(value: &AmqpValue) -> (read: Result<Self, CodecFault>) {
        match value {
            AmqpValue::Symbol(key) => Ok(AnnotationKey::Symbol(key.clone())),
            AmqpValue::Ulong(key) => Ok(AnnotationKey::Ulong(*key)),
            _ => Err(CodecFault::NotAnnotationKey),
        }
    }
}

// ---- performatives ---------------------------------------------------------

/// A performative as an AMQP value.
pub open spec fn performative_value(p: PerformativeView) -> ValueView {
    match p {
        PerformativeView::Open(open) => composite_value::<Open>(open),
        PerformativeView::Begin(begin) => composite_value::<Begin>(begin),
        PerformativeView::Attach(attach) => composite_value::<Attach>(attach),
        PerformativeView::Flow(flow) => composite_value::<Flow>(flow),
        PerformativeView::Transfer(transfer) => composite_value::<Transfer>(transfer),
        PerformativeView::Disposition(disposition) => composite_value::<Disposition>(disposition),
        PerformativeView::Detach(detach) => composite_value::<Detach>(detach),
        PerformativeView::End(end) => composite_value::<End>(end),
        PerformativeView::Close(close) => composite_value::<Close>(close),
    }
}

/// The performative that an AMQP value is.
pub open spec fn performative_of(v: ValueView) -> Result<PerformativeView, CodecFault> {
    match fields::taken_fields(v) {
        Err(fault) => Err(fault),
        Ok((code, f)) => if code == OPEN {
            match Open::of_fields(f) {
                Err(fault) => Err(fault),
                Ok(open) => Ok(PerformativeView::Open(open)),
            }
        } else if code == BEGIN {
            match Begin::of_fields(f) {
                Err(fault) => Err(fault),
                Ok(begin) => Ok(PerformativeView::Begin(begin)),
            }
        } else if code == ATTACH {
            match Attach::of_fields(f) {
                Err(fault) => Err(fault),
                Ok(attach) => Ok(PerformativeView::Attach(attach)),
            }
        } else if code == FLOW {
            match Flow::of_fields(f) {
                Err(fault) => Err(fault),
                Ok(flow) => Ok(PerformativeView::Flow(flow)),
            }
        } else if code == TRANSFER {
            match Transfer::of_fields(f) {
                Err(fault) => Err(fault),
                Ok(transfer) => Ok(PerformativeView::Transfer(transfer)),
            }
        } else if code == DISPOSITION {
            match Disposition::of_fields(f) {
                Err(fault) => Err(fault),
                Ok(disposition) => Ok(PerformativeView::Disposition(disposition)),
            }
        } else if code == DETACH {
            match Detach::of_fields(f) {
                Err(fault) => Err(fault),
                Ok(detach) => Ok(PerformativeView::Detach(detach)),
            }
        } else if code == END {
            match End::of_fields(f) {
                Err(fault) => Err(fault),
                Ok(end) => Ok(PerformativeView::End(end)),
            }
        } else if code == CLOSE {
            match Close::of_fields(f) {
                Err(fault) => Err(fault),
                Ok(close) => Ok(PerformativeView::Close(close)),
            }
        } else {
            Err(CodecFault::UnknownPerformative(code))
        },
    }
}

/// Whether a performative can be told from its AMQP value: no map in it holds a
/// key twice, and no custom error condition is one that AMQP names.
pub open spec fn sound_performative(p: PerformativeView) -> bool {
    match p {
        PerformativeView::Open(open) => Open::sound_fields(open),
        PerformativeView::Begin(begin) => Begin::sound_fields(begin),
        PerformativeView::Attach(attach) => Attach::sound_fields(attach),
        PerformativeView::Flow(flow) => Flow::sound_fields(flow),
        PerformativeView::Transfer(transfer) => Transfer::sound_fields(transfer),
        PerformativeView::Disposition(disposition) => Disposition::sound_fields(disposition),
        PerformativeView::Detach(detach) => Detach::sound_fields(detach),
        PerformativeView::End(end) => End::sound_fields(end),
        PerformativeView::Close(close) => Close::sound_fields(close),
    }
}

/// A performative is read from its AMQP value as it was written.
pub proof fn performatives_read_back(p: PerformativeView)
    requires
        sound_performative(p),
    ensures
        performative_of(performative_value(p)) == Ok::<PerformativeView, CodecFault>(p),
{
    match p {
        PerformativeView::Open(open) => Open::fields_read_back(open),
        PerformativeView::Begin(begin) => Begin::fields_read_back(begin),
        PerformativeView::Attach(attach) => Attach::fields_read_back(attach),
        PerformativeView::Flow(flow) => Flow::fields_read_back(flow),
        PerformativeView::Transfer(transfer) => Transfer::fields_read_back(transfer),
        PerformativeView::Disposition(disposition) => Disposition::fields_read_back(disposition),
        PerformativeView::Detach(detach) => Detach::fields_read_back(detach),
        PerformativeView::End(end) => End::fields_read_back(end),
        PerformativeView::Close(close) => Close::fields_read_back(close),
    }
}

pub fn performative_to_value(performative: &Performative) -> (value: AmqpValue)
    ensures
        value::meaning(value) == performative_value(performative.deep_view()),
{
    match performative {
        Performative::Open(open) => write_composite(open),
        Performative::Begin(begin) => write_composite(begin),
        Performative::Attach(attach) => write_composite(&**attach),
        Performative::Flow(flow) => write_composite(flow),
        Performative::Transfer(transfer) => write_composite(transfer),
        Performative::Disposition(disposition) => write_composite(disposition),
        Performative::Detach(detach) => write_composite(detach),
        Performative::End(end) => write_composite(end),
        Performative::Close(close) => write_composite(close),
    }
}

pub fn performative_from_value(value: &AmqpValue) -> (read: Result<Performative, CodecFault>)
    ensures
        match read {
            Ok(read) => performative_of(value::meaning(*value)) == Ok::<
                PerformativeView,
                CodecFault,
            >(read.deep_view()),
            Err(fault) => performative_of(value::meaning(*value)) == Err::<
                PerformativeView,
                CodecFault,
            >(fault),
        },
{
    let (code, f) = take_fields(value)?;
    if code == OPEN {
        let open = Open::read_fields(f)?;
        Ok(Performative::Open(open))
    } else if code == BEGIN {
        let begin = Begin::read_fields(f)?;
        Ok(Performative::Begin(begin))
    } else if code == ATTACH {
        let attach = Attach::read_fields(f)?;
        Ok(Performative::Attach(Box::new(attach)))
    } else if code == FLOW {
        let flow = Flow::read_fields(f)?;
        Ok(Performative::Flow(flow))
    } else if code == TRANSFER {
        let transfer = Transfer::read_fields(f)?;
        Ok(Performative::Transfer(transfer))
    } else if code == DISPOSITION {
        let disposition = Disposition::read_fields(f)?;
        Ok(Performative::Disposition(disposition))
    } else if code == DETACH {
        let detach = Detach::read_fields(f)?;
        Ok(Performative::Detach(detach))
    } else if code == END {
        let end = End::read_fields(f)?;
        Ok(Performative::End(end))
    } else if code == CLOSE {
        let close = Close::read_fields(f)?;
        Ok(Performative::Close(close))
    } else {
        Err(CodecFault::UnknownPerformative(code))
    }
}

/// A SASL performative as an AMQP value.
pub open spec fn sasl_value(p: SaslView) -> ValueView {
    match p {
        SaslView::Mechanisms(mechanisms) => composite_value::<SaslMechanisms>(mechanisms),
        SaslView::Init(init) => composite_value::<SaslInit>(init),
        SaslView::Challenge(challenge) => composite_value::<SaslChallenge>(challenge),
        SaslView::Response(response) => composite_value::<SaslResponse>(response),
        SaslView::Outcome(outcome) => composite_value::<SaslOutcome>(outcome),
    }
}

/// The SASL performative that an AMQP value is.
pub open spec fn sasl_of(v: ValueView) -> Result<SaslView, CodecFault> {
    match fields::taken_fields(v) {
        Err(fault) => Err(fault),
        Ok((code, f)) => if code == SASL_MECHANISMS {
            match SaslMechanisms::of_fields(f) {
                Err(fault) => Err(fault),
                Ok(mechanisms) => Ok(SaslView::Mechanisms(mechanisms)),
            }
        } else if code == SASL_INIT {
            match SaslInit::of_fields(f) {
                Err(fault) => Err(fault),
                Ok(init) => Ok(SaslView::Init(init)),
            }
        } else if code == SASL_CHALLENGE {
            match SaslChallenge::of_fields(f) {
                Err(fault) => Err(fault),
                Ok(challenge) => Ok(SaslView::Challenge(challenge)),
            }
        } else if code == SASL_RESPONSE {
            match SaslResponse::of_fields(f) {
                Err(fault) => Err(fault),
                Ok(response) => Ok(SaslView::Response(response)),
            }
        } else if code == SASL_OUTCOME {
            match SaslOutcome::of_fields(f) {
                Err(fault) => Err(fault),
                Ok(outcome) => Ok(SaslView::Outcome(outcome)),
            }
        } else {
            Err(CodecFault::UnknownSasl(code))
        },
    }
}

/// A SASL performative is read from its AMQP value as it was written.
pub proof fn sasl_performatives_read_back(p: SaslView)
    ensures
        sasl_of(sasl_value(p)) == Ok::<SaslView, CodecFault>(p),
{
    match p {
        SaslView::Mechanisms(mechanisms) => SaslMechanisms::fields_read_back(mechanisms),
        SaslView::Init(init) => SaslInit::fields_read_back(init),
        SaslView::Challenge(challenge) => SaslChallenge::fields_read_back(challenge),
        SaslView::Response(response) => SaslResponse::fields_read_back(response),
        SaslView::Outcome(outcome) => SaslOutcome::fields_read_back(outcome),
    }
}

pub fn sasl_to_value(performative: &SaslPerformative) -> (value: AmqpValue)
    ensures
        value::meaning(value) == sasl_value(performative.deep_view()),
{
    match performative {
        SaslPerformative::Mechanisms(mechanisms) => write_composite(mechanisms),
        SaslPerformative::Init(init) => write_composite(init),
        SaslPerformative::Challenge(challenge) => write_composite(challenge),
        SaslPerformative::Response(response) => write_composite(response),
        SaslPerformative::Outcome(outcome) => write_composite(outcome),
    }
}

pub fn sasl_from_value(value: &AmqpValue) -> (read: Result<SaslPerformative, CodecFault>)
    ensures
        match read {
            Ok(read) => sasl_of(value::meaning(*value)) == Ok::<SaslView, CodecFault>(
                read.deep_view(),
            ),
            Err(fault) => sasl_of(value::meaning(*value)) == Err::<SaslView, CodecFault>(fault),
        },
{
    let (code, f) = take_fields(value)?;
    if code == SASL_MECHANISMS {
        let mechanisms = SaslMechanisms::read_fields(f)?;
        Ok(SaslPerformative::Mechanisms(mechanisms))
    } else if code == SASL_INIT {
        let init = SaslInit::read_fields(f)?;
        Ok(SaslPerformative::Init(init))
    } else if code == SASL_CHALLENGE {
        let challenge = SaslChallenge::read_fields(f)?;
        Ok(SaslPerformative::Challenge(challenge))
    } else if code == SASL_RESPONSE {
        let response = SaslResponse::read_fields(f)?;
        Ok(SaslPerformative::Response(response))
    } else if code == SASL_OUTCOME {
        let outcome = SaslOutcome::read_fields(f)?;
        Ok(SaslPerformative::Outcome(outcome))
    } else {
        Err(CodecFault::UnknownSasl(code))
    }
}

} // verus!
