//! The versioned envelope of stored values.

use vstd::prelude::*;
use vstd::slice::slice_subrange;

use crate::domain::wire::Wire;

verus! {

/// Leading byte of every stored value.
///
/// A rolling upgrade writes the version its whole voter set advertises, so a
/// replica must be able to decode the version it is given rather than assume
/// the current one. Reads accept any known version; writes always use the
/// active one.
pub const VALUE_FORMAT_V1: u8 = 1;

/// A version whose records, the stored message excepted, have the shape they
/// had in version 1.
pub const VALUE_FORMAT_V2: u8 = 2;

pub const ACTIVE_VALUE_FORMAT: u8 = VALUE_FORMAT_V1;

#[derive(Clone, Copy, Debug, PartialEq, Eq, Structural)]
pub enum CodecError {
    EmptyEnvelope,
    UnsupportedVersion { version: u8 },
    Encode,
    Decode,
}

/// The stored form of `v`.
pub open spec fn encoded<T: Wire>(v: T::V) -> Seq<u8> {
    seq![ACTIVE_VALUE_FORMAT] + T::wire(v)
}

/// The format version and the payload of a stored envelope.
pub open spec fn envelope_parts(envelope: Seq<u8>) -> Result<(u8, Seq<u8>), CodecError> {
    if envelope.len() == 0 {
        Err(CodecError::EmptyEnvelope)
    } else if envelope[0] != VALUE_FORMAT_V1 && envelope[0] != VALUE_FORMAT_V2 {
        Err(CodecError::UnsupportedVersion { version: envelope[0] })
    } else {
        Ok((envelope[0], envelope.skip(1)))
    }
}

/// The value that a payload begins with. What follows it is not looked at.
pub open spec fn payload_value<T: Wire>(payload: Seq<u8>) -> Result<T::V, CodecError> {
    match T::unwire(payload) {
        Some((v, _)) => Ok(v),
        None => Err(CodecError::Decode),
    }
}

/// The value in a stored envelope of any known version.
pub open spec fn decoded<T: Wire>(envelope: Seq<u8>) -> Result<T::V, CodecError> {
    match envelope_parts(envelope) {
        Err(error) => Err(error),
        Ok((_, payload)) => payload_value::<T>(payload),
    }
}

/// A stored value decodes to itself.
pub proof fn stored_values_read_back<T: Wire>(v: T::V)
    requires
        T::fits(v),
    ensures
        decoded::<T>(encoded::<T>(v)) == Ok::<T::V, CodecError>(v),
{
    T::round_trip(v, Seq::empty());
    assert(encoded::<T>(v).skip(1) =~= T::wire(v));
    assert(T::wire(v) + Seq::<u8>::empty() =~= T::wire(v));
}

/// A record that never changed shape reads the same under either version.
pub proof fn either_version_reads_alike<T: Wire>(payload: Seq<u8>)
    ensures
        decoded::<T>(seq![VALUE_FORMAT_V1] + payload) == decoded::<T>(
            seq![VALUE_FORMAT_V2] + payload,
        ),
{
    assert((seq![VALUE_FORMAT_V1] + payload).skip(1) =~= payload);
    assert((seq![VALUE_FORMAT_V2] + payload).skip(1) =~= payload);
}

/// Two values with one stored form are one value.
pub proof fn encoding_is_injective<T: Wire>(a: T::V, b: T::V)
    requires
        T::fits(a),
        T::fits(b),
        encoded::<T>(a) == encoded::<T>(b),
    ensures
        a == b,
{
    stored_values_read_back::<T>(a);
    stored_values_read_back::<T>(b);
}

/// Encodes a value into a versioned envelope.
///
/// The layout is deterministic for a given value. Two replicas applying the
/// same command must produce byte-identical records, otherwise their snapshots
/// and hash chains diverge.
pub fn encode<T: Wire>(value: &T) -> (envelope: Result<Vec<u8>, CodecError>)
    ensures
        envelope is Ok,
        envelope->Ok_0@ == encoded::<T>(value.deep_view()),
{
    Ok(store(value))
}

/// The stored form of `value`.
pub(crate) fn store<T: Wire>(value: &T) -> (envelope: Vec<u8>)
    ensures
        envelope@ == encoded::<T>(value.deep_view()),
{
    let mut envelope: Vec<u8> = Vec::new();
    envelope.push(ACTIVE_VALUE_FORMAT);
    value.write(&mut envelope);
    proof {
        assert(envelope@ =~= encoded::<T>(value.deep_view()));
    }
    envelope
}

/// Decodes a record whose shape is the same in every known format version.
///
/// A record whose shape depends on the version decodes through [`split`] and
/// [`decode_payload`] instead.
pub fn decode<T: Wire>(envelope: &[u8]) -> (value: Result<T, CodecError>)
    ensures
        match value {
            Ok(value) => decoded::<T>(envelope@) == Ok::<T::V, CodecError>(value.deep_view()),
            Err(error) => decoded::<T>(envelope@) == Err::<T::V, CodecError>(error),
        },
{
    let (_, payload) = split(envelope)?;
    decode_payload(payload)
}

/// Splits a stored envelope into its format version and its payload, rejecting
/// a version this build does not know.
pub fn split(envelope: &[u8]) -> (parts: Result<(u8, &[u8]), CodecError>)
    ensures
        match parts {
            Ok((version, payload)) => envelope_parts(envelope@) == Ok::<
                (u8, Seq<u8>),
                CodecError,
            >((version, payload@)),
            Err(error) => envelope_parts(envelope@) == Err::<(u8, Seq<u8>), CodecError>(error),
        },
{
    if envelope.len() == 0 {
        return Err(CodecError::EmptyEnvelope);
    }
    let version: u8 = envelope[0];
    if version != VALUE_FORMAT_V1 && version != VALUE_FORMAT_V2 {
        return Err(CodecError::UnsupportedVersion { version });
    }
    Ok((version, slice_subrange(envelope, 1, envelope.len())))
}

pub fn decode_payload<T: Wire>(payload: &[u8]) -> (value: Result<T, CodecError>)
    ensures
        match value {
            Ok(value) => payload_value::<T>(payload@) == Ok::<T::V, CodecError>(
                value.deep_view(),
            ),
            Err(error) => payload_value::<T>(payload@) == Err::<T::V, CodecError>(error),
        },
{
    match T::read(payload) {
        Some((value, _)) => Ok(value),
        None => Err(CodecError::Decode),
    }
}

} // verus!
