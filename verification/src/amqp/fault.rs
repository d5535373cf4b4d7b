//! What can be wrong with AMQP bytes and values.

use vstd::prelude::*;

verus! {

/// Why bytes are no AMQP frame or message, or why a value cannot become one.
#[derive(Clone, Copy, Debug, PartialEq, Eq, Structural)]
pub enum CodecFault {
    /// The eight octets of a protocol header do not start with `AMQP`.
    ProtocolHeader,
    /// A frame declares a size outside the accepted range.
    FrameSize(u32),
    /// A frame would be larger than the accepted size.
    FrameTooLarge,
    /// A frame is shorter than its header.
    FrameShort,
    /// A frame's declared size is not its length.
    FrameSizeMismatch,
    /// A frame's body would start inside its header or beyond its end.
    DataOffset,
    /// A frame type that is neither AMQP nor SASL.
    FrameType(u8),
    /// A SASL frame on a channel, or without a body.
    SaslFrame,
    /// A SASL frame with octets after its performative.
    SaslTrailing,
    /// A value was expected at the end of the bytes.
    MissingValue,
    /// The length of a value is not there.
    MissingLength,
    /// A value extends beyond the bytes.
    Truncated,
    /// No AMQP type has this format code.
    FormatCode(u8),
    /// The bytes of a value are not well shaped, or do not hold a value.
    Malformed,
    /// A value has no AMQP encoding.
    NotEncodable,
    /// A value is not described.
    NotDescribed,
    /// A descriptor is a name.
    SymbolicDescriptor,
    /// A described value is not list encoded.
    NotList,
    /// A performative, outcome or section that is not known.
    UnknownPerformative(u64),
    UnknownSasl(u64),
    UnknownDeliveryState(u64),
    UnknownSection(u64),
    /// A terminus or error with another descriptor.
    NotSource,
    NotTarget,
    NotError,
    /// A field, by the descriptor of what it belongs to and its place, is required.
    Required(u64, usize),
    /// A field holds a value of another type.
    NotString,
    NotSymbol,
    NotBinary,
    NotBoolean,
    NotUbyte,
    NotUshort,
    NotUint,
    NotUlong,
    NotTimestamp,
    NotSymbolArray,
    NotMap,
    NotAnnotationKey,
    NotMessageId,
    NotRole,
    NotSenderSettleMode,
    NotReceiverSettleMode,
    NotSaslCode,
    NotData,
    NotSequence,
    /// A message section occurs twice, or before one that it follows.
    DuplicateSection(u64),
    SectionOrder,
    /// A message body mixes sections of different types.
    MixedBody,
    /// A data or sequence body without sections.
    EmptyBody,
}

} // verus!
