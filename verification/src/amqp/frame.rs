//! Protocol headers and frames.

use vstd::prelude::*;

use crate::amqp::composite;
use crate::amqp::composite::{
    performative_from_value, performative_to_value, sasl_from_value, sasl_to_value,
};
use crate::amqp::encoding;
use crate::amqp::encoding::{decode_value, encode_value};
use crate::amqp::fault::CodecFault;
use crate::amqp::shape;
use crate::amqp::shape::encoded_value_len;
use crate::amqp::types::{Performative, PerformativeView, SaslPerformative, SaslView};
use crate::bytes;

verus! {

pub const AMQP_PROTOCOL_ID: u8 = 0;

pub const SASL_PROTOCOL_ID: u8 = 3;

pub const AMQP_FRAME_TYPE: u8 = 0;

pub const SASL_FRAME_TYPE: u8 = 1;

pub const FRAME_HEADER_SIZE: usize = 8;

pub const MAX_FRAME_SIZE: usize = 4_194_304;

// ---- protocol headers ------------------------------------------------------

/// What opens a connection, or a security layer on it.
#[derive(Clone, Copy, Debug, PartialEq, Eq, Structural)]
pub struct ProtocolHeader {
    pub protocol_id: u8,
    pub major: u8,
    pub minor: u8,
    pub revision: u8,
}

pub open spec fn header_octets(header: ProtocolHeader) -> Seq<u8> {
    seq![
        0x41u8,
        0x4d,
        0x51,
        0x50,
        header.protocol_id,
        header.major,
        header.minor,
        header.revision,
    ]
}

/// The protocol header that eight octets are.
pub open spec fn header_of(octets: Seq<u8>) -> Result<ProtocolHeader, CodecFault> {
    if octets[0] == 0x41 && octets[1] == 0x4d && octets[2] == 0x51 && octets[3] == 0x50 {
        Ok(
            ProtocolHeader {
                protocol_id: octets[4],
                major: octets[5],
                minor: octets[6],
                revision: octets[7],
            },
        )
    } else {
        Err(CodecFault::ProtocolHeader)
    }
}

/// A protocol header is read as it was written.
pub proof fn headers_read_back(header: ProtocolHeader)
    ensures
        header_of(header_octets(header)) == Ok::<ProtocolHeader, CodecFault>(header),
{
}

/// The protocol header of version 1.0.0 of a protocol.
pub open spec fn protocol(protocol_id: u8) -> ProtocolHeader {
    ProtocolHeader { protocol_id, major: 1, minor: 0, revision: 0 }
}

impl ProtocolHeader {
    /// The header of an AMQP connection.
    pub fn amqp() -> (header: ProtocolHeader)
        ensures
            header == protocol(AMQP_PROTOCOL_ID),
    {
        ProtocolHeader { protocol_id: AMQP_PROTOCOL_ID, major: 1, minor: 0, revision: 0 }
    }

    /// The header of a SASL layer.
    pub fn sasl() -> (header: ProtocolHeader)
        ensures
            header == protocol(SASL_PROTOCOL_ID),
    {
        ProtocolHeader { protocol_id: SASL_PROTOCOL_ID, major: 1, minor: 0, revision: 0 }
    }

    pub fn bytes(self) -> (octets: [u8; 8])
        ensures
            octets@ == header_octets(self),
    {
        let octets: [u8; 8] = [
            0x41,
            0x4d,
            0x51,
            0x50,
            self.protocol_id,
            self.major,
            self.minor,
            self.revision,
        ];
        proof {
            assert(octets@ =~= header_octets(self));
        }
        octets
    }

    pub fn parse(octets: &[u8; 8]) -> (header: Result<ProtocolHeader, CodecFault>)
        ensures
            header == header_of(octets@),
    {
        if octets[0] == 0x41 && octets[1] == 0x4d && octets[2] == 0x51 && octets[3] == 0x50 {
            Ok(
                ProtocolHeader {
                    protocol_id: octets[4],
                    major: octets[5],
                    minor: octets[6],
                    revision: octets[7],
                },
            )
        } else {
            Err(CodecFault::ProtocolHeader)
        }
    }
}

// ---- frames ----------------------------------------------------------------

/// What connections exchange.
#[derive(Debug, PartialEq, Eq)]
pub enum Frame {
    Amqp { channel: u16, performative: Option<Performative>, payload: Vec<u8> },
    Sasl(SaslPerformative),
}

pub enum FrameView {
    Amqp { channel: u16, performative: Option<PerformativeView>, payload: Seq<u8> },
    Sasl(SaslView),
}

impl DeepView for Frame {
    type V = FrameView;

    open spec fn deep_view(&self) -> FrameView {
        match self {
            Frame::Amqp { channel, performative, payload } => FrameView::Amqp {
                channel: *channel,
                performative: performative.deep_view(),
                payload: payload@,
            },
            Frame::Sasl(performative) => FrameView::Sasl(performative.deep_view()),
        }
    }
}

/// A frame around a body: its size, where the body starts, its type and
/// channel, and the body.
pub open spec fn framed(kind: u8, channel: u16, body: Seq<u8>) -> Result<Seq<u8>, CodecFault> {
    let size = FRAME_HEADER_SIZE + body.len();
    if size > MAX_FRAME_SIZE {
        Err(CodecFault::FrameTooLarge)
    } else {
        Ok(
            bytes::be(size as nat, 4) + seq![2u8, kind] + bytes::be(channel as nat, 2) + body,
        )
    }
}

/// The octets of a frame.
pub open spec fn frame_octets(frame: FrameView) -> Result<Seq<u8>, CodecFault> {
    match frame {
        FrameView::Amqp { channel, performative, payload } => match performative {
            None => framed(AMQP_FRAME_TYPE, channel, payload),
            Some(p) => match encoding::encoded(composite::performative_value(p)) {
                Err(fault) => Err(fault),
                Ok(encoded) => framed(AMQP_FRAME_TYPE, channel, encoded + payload),
            },
        },
        FrameView::Sasl(p) => match encoding::encoded(composite::sasl_value(p)) {
            Err(fault) => Err(fault),
            Ok(encoded) => framed(SASL_FRAME_TYPE, 0, encoded),
        },
    }
}

/// The frame that a frame's type, channel and body make.
pub open spec fn frame_in(kind: u8, channel: u16, body: Seq<u8>) -> Result<FrameView, CodecFault> {
    if kind == AMQP_FRAME_TYPE {
        if body.len() == 0 {
            Ok(FrameView::Amqp { channel, performative: None, payload: Seq::empty() })
        } else {
            match shape::value_len(body) {
                Err(fault) => Err(fault),
                Ok(n) => match encoding::decoded(body.take(n as int)) {
                    Err(fault) => Err(fault),
                    Ok(v) => match composite::performative_of(v) {
                        Err(fault) => Err(fault),
                        Ok(p) => Ok(
                            FrameView::Amqp {
                                channel,
                                performative: Some(p),
                                payload: body.skip(n as int),
                            },
                        ),
                    },
                },
            }
        }
    } else if kind == SASL_FRAME_TYPE {
        if channel == 0 && body.len() > 0 {
            match shape::value_len(body) {
                Err(fault) => Err(fault),
                Ok(n) => if n != body.len() {
                    Err(CodecFault::SaslTrailing)
                } else {
                    match encoding::decoded(body) {
                        Err(fault) => Err(fault),
                        Ok(v) => match composite::sasl_of(v) {
                            Err(fault) => Err(fault),
                            Ok(p) => Ok(FrameView::Sasl(p)),
                        },
                    }
                },
            }
        } else {
            Err(CodecFault::SaslFrame)
        }
    } else {
        Err(CodecFault::FrameType(kind))
    }
}

/// The frame that octets are.
pub open spec fn frame_of(b: Seq<u8>) -> Result<FrameView, CodecFault> {
    if b.len() < FRAME_HEADER_SIZE {
        Err(CodecFault::FrameShort)
    } else if bytes::be_value(b.subrange(0, 4)) != b.len() {
        Err(CodecFault::FrameSizeMismatch)
    } else {
        let start = 4 * b[4] as int;
        if start < FRAME_HEADER_SIZE || start > b.len() {
            Err(CodecFault::DataOffset)
        } else {
            frame_in(b[5], bytes::be_value(b.subrange(6, 8)) as u16, b.skip(start))
        }
    }
}

/// Whether a frame is read as it was written. A custom error condition is not
/// one that AMQP names, no map holds a key twice, the values in it are
/// `readable`, and only what has a performative has a payload.
pub open spec fn frame_reads_back(frame: FrameView) -> bool {
    match frame {
        FrameView::Amqp { channel, performative, payload } => match performative {
            None => payload.len() == 0,
            Some(p) => composite::sound_performative(p) && encoding::readable(
                composite::performative_value(p),
            ),
        },
        FrameView::Sasl(p) => encoding::readable(composite::sasl_value(p)),
    }
}

/// Whether a frame is sure to be written: what is in it can be, and is short
/// enough.
pub open spec fn fits_a_frame(frame: FrameView) -> bool {
    match frame {
        FrameView::Amqp { channel, performative, payload } => match performative {
            None => FRAME_HEADER_SIZE + payload.len() <= MAX_FRAME_SIZE,
            Some(p) => {
                let v = composite::performative_value(p);
                encoding::writable(v) && FRAME_HEADER_SIZE + encoding::weight(v) + payload.len()
                    <= MAX_FRAME_SIZE
            },
        },
        FrameView::Sasl(p) => {
            let v = composite::sasl_value(p);
            encoding::writable(v) && FRAME_HEADER_SIZE + encoding::weight(v) <= MAX_FRAME_SIZE
        },
    }
}

proof fn framed_reads_back(kind: u8, channel: u16, body: Seq<u8>)
    requires
        framed(kind, channel, body) is Ok,
    ensures
        frame_of(framed(kind, channel, body)->Ok_0) == frame_in(kind, channel, body),
{
    let size = (FRAME_HEADER_SIZE + body.len()) as nat;
    let b = framed(kind, channel, body)->Ok_0;
    bytes::be_len(size, 4);
    bytes::be_len(channel as nat, 2);
    bytes::span_values();
    bytes::be_round_trip(size, 4);
    bytes::be_round_trip(channel as nat, 2);
    assert(b.subrange(0, 4) =~= bytes::be(size, 4));
    assert(b.subrange(6, 8) =~= bytes::be(channel as nat, 2));
    assert(b[4] == 2 && b[5] == kind);
    assert(b.skip(8) =~= body);
}

/// A frame that was written begins with its own length. Shortened or lengthened,
/// it is refused.
pub proof fn frames_have_the_length_they_tell(frame: FrameView, other: Seq<u8>)
    requires
        frame_octets(frame) is Ok,
        other.len() >= 4,
        other.take(4) == frame_octets(frame)->Ok_0.take(4),
        other.len() != frame_octets(frame)->Ok_0.len(),
    ensures
        bytes::be_value(frame_octets(frame)->Ok_0.take(4)) == frame_octets(frame)->Ok_0.len(),
        frame_of(other) is Err,
{
    let b = frame_octets(frame)->Ok_0;
    let size = b.len();
    bytes::span_values();
    assert forall|n: nat| #[trigger] bytes::be(n, 4).len() == 4 by {
        bytes::be_len(n, 4);
    }
    assert forall|n: u16| #[trigger] bytes::be(n as nat, 2).len() == 2 by {
        bytes::be_len(n as nat, 2);
    }
    assert(b.take(4) =~= bytes::be(size, 4));
    assert(size <= MAX_FRAME_SIZE);
    bytes::be_round_trip(size, 4);
    assert(other.subrange(0, 4) =~= other.take(4));
}

/// Encodes a frame.
fn frame(kind: u8, channel: u16, encoded: Vec<u8>, payload: &[u8]) -> (octets: Result<
    Vec<u8>,
    CodecFault,
>)
    ensures
        match octets {
            Ok(octets) => framed(kind, channel, encoded@ + payload@) == Ok::<Seq<u8>, CodecFault>(
                octets@,
            ),
            Err(fault) => framed(kind, channel, encoded@ + payload@) == Err::<Seq<u8>, CodecFault>(
                fault,
            ),
        },
{
    let body: usize = encoded.len();
    let rest: usize = payload.len();
    if body > MAX_FRAME_SIZE - FRAME_HEADER_SIZE || rest > MAX_FRAME_SIZE - FRAME_HEADER_SIZE
        - body {
        return Err(CodecFault::FrameTooLarge);
    }
    let size: usize = FRAME_HEADER_SIZE + body + rest;
    let mut octets: Vec<u8> = Vec::new();
    bytes::push_be32(&mut octets, size as u32);
    octets.push(2);
    octets.push(kind);
    octets.push((channel / 256) as u8);
    octets.push((channel % 256) as u8);
    proof {
        reveal_with_fuel(bytes::be, 3);
        assert(octets@ =~= bytes::be(size as nat, 4) + seq![2u8, kind] + bytes::be(
            channel as nat,
            2,
        ));
    }
    bytes::append(&mut octets, encoded.as_slice());
    bytes::append(&mut octets, payload);
    proof {
        assert(octets@ =~= bytes::be(size as nat, 4) + seq![2u8, kind] + bytes::be(
            channel as nat,
            2,
        ) + (encoded@ + payload@));
    }
    Ok(octets)
}

/// What is owed for a frame.
pub open spec fn frame_written(frame: FrameView, octets: Result<Vec<u8>, CodecFault>) -> bool {
    match octets {
        Ok(octets) => {
            &&& frame_octets(frame) == Ok::<Seq<u8>, CodecFault>(octets@)
            &&& frame_reads_back(frame) ==> frame_of(octets@) == Ok::<FrameView, CodecFault>(frame)
        },
        Err(fault) => frame_octets(frame) == Err::<Seq<u8>, CodecFault>(fault) && !fits_a_frame(
            frame,
        ),
    }
}

fn encode_amqp(channel: u16, performative: &Performative, payload: &Vec<u8>) -> (octets: Result<
    Vec<u8>,
    CodecFault,
>)
    ensures
        frame_written(
            FrameView::Amqp {
                channel,
                performative: Some(performative.deep_view()),
                payload: payload@,
            },
            octets,
        ),
{
    let ghost p = performative.deep_view();
    let encoded = encode_value(&performative_to_value(performative))?;
    let ghost body = encoded@ + payload@;
    proof {
        assert(shape::value_len(encoded@ + payload@) == Ok::<nat, CodecFault>(encoded@.len()));
        shape::value_len_is_bounded(body);
        assert(body.take(encoded@.len() as int) =~= encoded@);
        assert(body.skip(encoded@.len() as int) =~= payload@);
        assert(body.len() == encoded@.len() + payload@.len());
        if framed(AMQP_FRAME_TYPE, channel, body) is Ok {
            framed_reads_back(AMQP_FRAME_TYPE, channel, body);
        }
        if composite::sound_performative(p) {
            composite::performatives_read_back(p);
        }
    }
    self::frame(AMQP_FRAME_TYPE, channel, encoded, payload.as_slice())
}

fn encode_sasl(performative: &SaslPerformative) -> (octets: Result<Vec<u8>, CodecFault>)
    ensures
        frame_written(FrameView::Sasl(performative.deep_view()), octets),
{
    let ghost p = performative.deep_view();
    let encoded = encode_value(&sasl_to_value(performative))?;
    let empty: Vec<u8> = Vec::new();
    let ghost body = encoded@;
    proof {
        assert(encoded@ + empty@ =~= body);
        assert(shape::value_len(encoded@ + Seq::<u8>::empty()) == Ok::<nat, CodecFault>(
            encoded@.len(),
        ));
        assert(encoded@ + Seq::<u8>::empty() =~= body);
        shape::value_len_is_bounded(body);
        if framed(SASL_FRAME_TYPE, 0, body) is Ok {
            framed_reads_back(SASL_FRAME_TYPE, 0, body);
        }
        composite::sasl_performatives_read_back(p);
    }
    self::frame(SASL_FRAME_TYPE, 0, encoded, empty.as_slice())
}

/// Encodes a frame. What was encoded is decoded to the same frame.
pub fn encode_frame(frame: &Frame) -> (octets: Result<Vec<u8>, CodecFault>)
    ensures
        frame_written(frame.deep_view(), octets),
{
    match frame {
        Frame::Amqp { channel, performative, payload } => match performative {
            None => {
                let empty: Vec<u8> = Vec::new();
                proof {
                    assert(empty@ + payload@ =~= payload@);
                    if payload@.len() == 0 {
                        assert(payload@ =~= Seq::<u8>::empty());
                    }
                    if framed(AMQP_FRAME_TYPE, *channel, payload@) is Ok {
                        framed_reads_back(AMQP_FRAME_TYPE, *channel, payload@);
                    }
                }
                self::frame(AMQP_FRAME_TYPE, *channel, empty, payload.as_slice())
            },
            Some(performative) => encode_amqp(*channel, performative, payload),
        },
        Frame::Sasl(performative) => encode_sasl(performative),
    }
}

/// Whether a frame of the declared size is read at all.
pub open spec fn accepted_size(size: u32) -> Result<usize, CodecFault> {
    if FRAME_HEADER_SIZE <= size <= MAX_FRAME_SIZE {
        Ok(size as usize)
    } else {
        Err(CodecFault::FrameSize(size))
    }
}

/// The size that the first four octets of a frame declare, if it is accepted.
pub fn frame_size(octets: &[u8; 4]) -> (size: Result<usize, CodecFault>)
    ensures
        size == accepted_size(bytes::be_value(octets@) as u32),
{
    proof {
        bytes::span_values();
        assert(octets@.subrange(0, 4) =~= octets@);
    }
    let size: u32 = bytes::read_be(octets.as_slice(), 0, 4) as u32;
    if FRAME_HEADER_SIZE as u32 <= size && size <= MAX_FRAME_SIZE as u32 {
        Ok(size as usize)
    } else {
        Err(CodecFault::FrameSize(size))
    }
}

/// Decodes a frame.
pub fn decode_frame(octets: &[u8]) -> (frame: Result<Frame, CodecFault>)
    ensures
        match frame {
            Ok(frame) => frame_of(octets@) == Ok::<FrameView, CodecFault>(frame.deep_view()),
            Err(fault) => frame_of(octets@) == Err::<FrameView, CodecFault>(fault),
        },
{
    let total: usize = octets.len();
    if total < FRAME_HEADER_SIZE {
        return Err(CodecFault::FrameShort);
    }
    if bytes::read_be(octets, 0, 4) != total as u64 {
        return Err(CodecFault::FrameSizeMismatch);
    }
    let start: usize = 4 * octets[4] as usize;
    if start < FRAME_HEADER_SIZE || start > total {
        return Err(CodecFault::DataOffset);
    }
    proof {
        bytes::span_values();
    }
    let channel: u16 = bytes::read_be(octets, 6, 2) as u16;
    let body = vstd::slice::slice_subrange(octets, start, total);
    proof {
        assert(body@ =~= octets@.skip(start as int));
    }
    let kind: u8 = octets[5];
    if kind == AMQP_FRAME_TYPE {
        if body.len() == 0 {
            let payload: Vec<u8> = Vec::new();
            proof {
                assert(payload@ =~= Seq::<u8>::empty());
            }
            return Ok(Frame::Amqp { channel, performative: None, payload });
        }
        let n: usize = encoded_value_len(body)?;
        let head = vstd::slice::slice_subrange(body, 0, n);
        let tail = vstd::slice::slice_subrange(body, n, body.len());
        proof {
            assert(head@ =~= body@.take(n as int));
            assert(tail@ =~= body@.skip(n as int));
        }
        let decoded = decode_value(head)?;
        let performative = performative_from_value(&decoded)?;
        let payload = bytes::copy_bytes(tail);
        Ok(Frame::Amqp { channel, performative: Some(performative), payload })
    } else if kind == SASL_FRAME_TYPE {
        if channel != 0 || body.len() == 0 {
            return Err(CodecFault::SaslFrame);
        }
        let n: usize = encoded_value_len(body)?;
        if n != body.len() {
            return Err(CodecFault::SaslTrailing);
        }
        let decoded = decode_value(body)?;
        let performative = sasl_from_value(&decoded)?;
        Ok(Frame::Sasl(performative))
    } else {
        Err(CodecFault::FrameType(kind))
    }
}

} // verus!
