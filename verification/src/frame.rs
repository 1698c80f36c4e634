//! The frame: the unit that travels on the wire.
//!
//! ```text
//! marker (5 bytes, "virus") | metadata length (4 bytes, big-endian)
//!   | payload length (4 bytes, big-endian) | metadata | payload
//! ```
//!
//! Both lengths are at least one, and a whole frame, header included, has at
//! most `MAX_FRAME_SIZE` bytes.  `parse_frame` says what a run of bytes
//! means; `FrameCodec` is proved to read and write accordingly.

use crate::buffer;
use crate::buffer::be_bytes;
use crate::buffer::be_value;
use crate::buffer::contents;
use crate::codec::Decoder;
use crate::codec::Encoder;
use crate::error::ProtocolError;
use crate::error::VirusError;
use crate::protocol::protocol::checked_len;
use crate::protocol::protocol::MetaData;
use crate::protocol::protocol::MetaDataView;
use crate::protocol::wire::decode;
use crate::protocol::wire::encode_to_vec;
use crate::protocol::wire::parse;
use crate::protocol::wire::ProtoMessage;
use crate::protocol::wire::RoundTrip;
use crate::protocol::CompressType;
use crate::protocol::MessageType;
use crate::protocol::RoleType;
use bytes::BytesMut;
use vstd::prelude::*;
use vstd::slice::slice_subrange;
use vstd::slice::slice_to_vec;
use vstd::string::StringExecFns;

verus! {

/// The most bytes a frame can have, header included: 16 MiB.
pub const MAX_FRAME_SIZE: usize = 16777216;

/// The number of bytes of a frame header.
pub const FRAME_HEADER_SIZE: usize = 13;

/// The marker that every frame starts with: `virus` in ASCII.
pub open spec fn marker() -> Seq<u8> {
    seq![0x76u8, 0x69u8, 0x72u8, 0x75u8, 0x73u8]
}

/// The header of a frame.
#[derive(Debug)]
pub struct FrameHead {
    pub identifier: String,
    pub metadata_length: u32,
    pub payload_length: u32,
}

/// Metadata and an opaque payload.
#[derive(Debug, Clone, PartialEq)]
pub struct Frame {
    // frame metadata: role, service name, method name and so on.
    metadata: MetaData,
    // frame payload
    payload: Vec<u8>,
}

/// What a `Frame` holds.
pub struct FrameView {
    pub metadata: MetaDataView,
    pub payload: Seq<u8>,
}

impl View for Frame {
    type V = FrameView;

    closed spec fn view(&self) -> FrameView {
        FrameView { metadata: self.metadata@, payload: self.payload@ }
    }
}

// ---------------------------------------------------------------------------
// The format
// ---------------------------------------------------------------------------

/// The metadata of a frame as it is written.
pub open spec fn metadata_wire(f: FrameView) -> Seq<u8> {
    MetaData::wire(f.metadata)
}

/// The number of bytes of a frame as it is written.
pub open spec fn frame_len(f: FrameView) -> nat {
    FRAME_HEADER_SIZE as nat + metadata_wire(f).len() + f.payload.len()
}

/// A frame as it is written.  Meant for frames of at most `MAX_FRAME_SIZE`
/// bytes; no other frame is ever written.
pub open spec fn frame_wire(f: FrameView) -> Seq<u8> {
    assemble(metadata_wire(f), f.payload)
}

/// The header that declares the two lengths.
pub open spec fn head_wire(metadata_len: u32, payload_len: u32) -> Seq<u8> {
    marker() + be_bytes(metadata_len) + be_bytes(payload_len)
}

/// A header, then the metadata as written, then the payload.
pub open spec fn assemble(metadata: Seq<u8>, payload: Seq<u8>) -> Seq<u8> {
    head_wire(metadata.len() as u32, payload.len() as u32) + metadata + payload
}

/// The frames that can be written and read back: both lengths are at least
/// one, the whole fits the size limit, and no two entries of the metadata
/// have the same key.
pub open spec fn valid_frame(f: FrameView) -> bool {
    &&& metadata_wire(f).len() > 0
    &&& f.payload.len() > 0
    &&& frame_len(f) <= MAX_FRAME_SIZE
    &&& crate::keyed::distinct_keys(f.metadata.values)
}

/// What the first thirteen bytes of `b` say as a header: the two lengths, or
/// the rule they break.  The rules are checked in this order: the marker,
/// the metadata length, the payload length, the size of the whole.
pub open spec fn parse_head(b: Seq<u8>) -> Result<(u32, u32), ProtocolError>
    recommends
        b.len() >= FRAME_HEADER_SIZE,
{
    let metadata_len = be_value(b.subrange(5, 9));
    let payload_len = be_value(b.subrange(9, 13));
    if b.subrange(0, 5) != marker() {
        Err(ProtocolError::InvalidMarker)
    } else if metadata_len == 0 {
        Err(ProtocolError::ZeroMetadataLength)
    } else if payload_len == 0 {
        Err(ProtocolError::ZeroPayloadLength)
    } else if FRAME_HEADER_SIZE + metadata_len + payload_len > MAX_FRAME_SIZE {
        Err(ProtocolError::FrameTooLong)
    } else {
        Ok((metadata_len as u32, payload_len as u32))
    }
}

/// What a decoder finds at the front of a run of bytes.
pub enum Parsed {
    /// Not enough bytes yet for a verdict; more may complete a frame.
    Incomplete,
    /// The header breaks a rule of the protocol.
    Invalid(ProtocolError),
    /// A whole frame of `consumed` bytes whose metadata cannot be read.
    Malformed { consumed: nat },
    /// A whole frame of `consumed` bytes.
    Complete { frame: FrameView, consumed: nat },
}

/// What is at the front of `b`.
pub open spec fn parse_frame(b: Seq<u8>) -> Parsed {
    if b.len() < FRAME_HEADER_SIZE {
        Parsed::Incomplete
    } else {
        match parse_head(b) {
            Err(e) => Parsed::Invalid(e),
            Ok((metadata_len, payload_len)) => {
                let start = FRAME_HEADER_SIZE as int;
                let total = start + metadata_len + payload_len;
                if b.len() < total {
                    Parsed::Incomplete
                } else {
                    match parse::<MetaData>(b.subrange(start, start + metadata_len)) {
                        None => Parsed::Malformed { consumed: total as nat },
                        Some(metadata) => Parsed::Complete {
                            frame: FrameView {
                                metadata,
                                payload: b.subrange(start + metadata_len, total),
                            },
                            consumed: total as nat,
                        },
                    }
                }
            },
        }
    }
}

// ---------------------------------------------------------------------------
// Frames
// ---------------------------------------------------------------------------

impl Frame {
    pub fn new(meta: MetaData, payload: Vec<u8>) -> (frame: Self)
        ensures
            frame@ == (FrameView { metadata: meta@, payload: payload@ }),
    {
        Frame { metadata: meta, payload: payload }
    }

    /// The metadata of the frame.
    pub fn metadata(&self) -> (m: &MetaData)
        ensures
            m@ == self@.metadata,
    {
        &self.metadata
    }

    /// The payload of the frame.
    pub fn payload(&self) -> (p: &Vec<u8>)
        ensures
            p@ == self@.payload,
    {
        &self.payload
    }

    /// Takes the frame apart.
    pub fn into_parts(self) -> (parts: (MetaData, Vec<u8>))
        ensures
            parts.0@ == self@.metadata,
            parts.1@ == self@.payload,
    {
        (self.metadata, self.payload)
    }

    /// The number of bytes of the metadata as it is written.
    #[inline]
    pub fn metadata_len(&self) -> (n: usize)
        requires
            metadata_wire(self@).len() <= usize::MAX,
        ensures
            n == metadata_wire(self@).len(),
    {
        self.metadata.encoded_len()
    }

    /// The number of bytes of the payload.
    #[inline]
    pub fn payload_len(&self) -> (n: usize)
        ensures
            n == self@.payload.len(),
    {
        self.payload.len()
    }

    /// The number of bytes of the frame as it is written.
    #[inline]
    pub fn len(&self) -> (n: usize)
        requires
            frame_len(self@) <= usize::MAX,
        ensures
            n == frame_len(self@),
    {
        5 + 4 + 4 + self.metadata.encoded_len() + self.payload.len()
    }

    /// The number of bytes of the frame as it is written, if they are at
    /// most `limit`.
    pub fn len_within(&self, limit: usize) -> (r: Option<usize>)
        ensures
            match r {
                Some(n) => n == frame_len(self@) && n <= limit,
                None => frame_len(self@) > limit,
            },
    {
        let metadata_len: usize = match checked_len(&self.metadata) {
            Some(n) => n,
            None => {
                return None;
            },
        };
        if limit < FRAME_HEADER_SIZE || metadata_len > limit - FRAME_HEADER_SIZE {
            return None;
        }
        let head: usize = FRAME_HEADER_SIZE + metadata_len;
        if self.payload.len() > limit - head {
            return None;
        }
        Some(head + self.payload.len())
    }

    #[inline]
    pub fn compress_type(&self) -> (t: CompressType)
        ensures
            t == CompressType::of(self@.metadata.compress_type),
    {
        CompressType::from(self.metadata.compress_type)
    }

    #[inline]
    pub fn message_type(&self) -> (t: MessageType)
        ensures
            t == MessageType::of(self@.metadata.message_type),
    {
        MessageType::from(self.metadata.message_type)
    }

    #[inline]
    pub fn role_type(&self) -> (t: RoleType)
        ensures
            t == RoleType::of(self@.metadata.role),
    {
        RoleType::from(self.metadata.role)
    }
}

// ---------------------------------------------------------------------------
// The codec
// ---------------------------------------------------------------------------

/// Reads the header at the front of `src` without consuming anything.
pub fn decode_head(src: &BytesMut) -> (r: Result<FrameHead, VirusError>)
    requires
        contents(*src).len() >= FRAME_HEADER_SIZE,
    ensures
        match parse_head(contents(*src)) {
            Ok((metadata_len, payload_len)) => r matches Ok(head) && head.metadata_length
                == metadata_len && head.payload_length == payload_len && head.identifier@
                == "virus"@,
            Err(e) => r == Err::<FrameHead, VirusError>(VirusError::Protocol(e)),
        },
{
    let bytes = buffer::as_slice(src);
    let ghost b = contents(*src);

    // "virus": 5 bytes
    if bytes[0] != 0x76 || bytes[1] != 0x69 || bytes[2] != 0x72 || bytes[3] != 0x75 || bytes[4]
        != 0x73 {
        assert(b.subrange(0, 5) != marker()) by {
            let id = b.subrange(0, 5);
            assert(id[0] == b[0] && id[1] == b[1] && id[2] == b[2] && id[3] == b[3] && id[4]
                == b[4]);
        }
        return Err(VirusError::Protocol(ProtocolError::InvalidMarker));
    }
    assert(b.subrange(0, 5) =~= marker());

    // metadata length: 4 bytes
    let metadata_len: u32 = buffer::get_u32(slice_subrange(bytes, 5, 9));
    if metadata_len == 0 {
        return Err(VirusError::Protocol(ProtocolError::ZeroMetadataLength));
    }
    // payload length: 4 bytes

    let payload_len: u32 = buffer::get_u32(slice_subrange(bytes, 9, 13));
    if payload_len == 0 {
        return Err(VirusError::Protocol(ProtocolError::ZeroPayloadLength));
    }
    let length: u64 = FRAME_HEADER_SIZE as u64 + metadata_len as u64 + payload_len as u64;
    if length > MAX_FRAME_SIZE as u64 {
        return Err(VirusError::Protocol(ProtocolError::FrameTooLong));
    }
    Ok(
        FrameHead {
            identifier: String::from_str("virus"),
            metadata_length: metadata_len,
            payload_length: payload_len,
        },
    )
}

/// What is left of a run of bytes when its front is taken off is its back;
/// with nothing taken off, that is the whole.
proof fn lemma_back_is_suffix(b: Seq<u8>, n: int)
    requires
        0 <= n <= b.len(),
    ensures
        b.skip(n).is_suffix_of(b),
        n == 0 ==> b.is_suffix_of(b),
{
    assert(b.subrange(b.len() - (b.len() - n), b.len() as int) =~= b.skip(n));
    assert(b.skip(0) =~= b);
}

/// The codec of frames.  It holds no state.
#[derive(Default, Debug)]
pub struct FrameCodec {}

impl Encoder for FrameCodec {
    type Item = Frame;

    type Error = VirusError;

    /// Appends `item` as it is written, unless it is too long: then nothing
    /// is appended and the error says so.
    fn encode(&mut self, item: Frame, dst: &mut BytesMut) -> (r: Result<(), VirusError>)
        ensures
            frame_len(item@) <= MAX_FRAME_SIZE ==> r is Ok && contents(*final(dst)) == contents(
                *old(dst),
            ) + frame_wire(item@),
            frame_len(item@) > MAX_FRAME_SIZE ==> r == Err::<(), VirusError>(
                VirusError::Protocol(ProtocolError::FrameTooLong),
            ) && contents(*final(dst)) == contents(*old(dst)),
    {
        if item.len_within(MAX_FRAME_SIZE).is_none() {
            return Err(VirusError::Protocol(ProtocolError::FrameTooLong));
        }
        let metadata = encode_to_vec(&item.metadata);
        let marker: [u8; 5] = [0x76, 0x69, 0x72, 0x75, 0x73];

        // "virus": 5 bytes
        buffer::put_slice(dst, marker.as_slice());
        assert(marker@ =~= self::marker());

        // metadata length: 4 bytes
        buffer::put_u32(dst, metadata.len() as u32);

        // payload length: 4 bytes
        buffer::put_u32(dst, item.payload.len() as u32);

        // metadata: metadata length bytes
        buffer::put_slice(dst, metadata.as_slice());

        // payload: payload length bytes
        buffer::put_slice(dst, item.payload.as_slice());

        assert(contents(*dst) =~= contents(*old(dst)) + assemble(metadata@, item.payload@));
        Ok(())
    }
}

impl Decoder for FrameCodec {
    type Item = Frame;

    type Error = VirusError;

    /// Takes the frame at the front of `src`, as `parse_frame` says:
    /// nothing is consumed while the frame is incomplete or where its
    /// header breaks a rule; a whole frame is consumed, also where its
    /// metadata cannot be read, so that the next frame can be.
    fn decode(&mut self, src: &mut BytesMut) -> (r: Result<Option<Frame>, VirusError>)
        ensures
            match parse_frame(contents(*old(src))) {
                Parsed::Incomplete => r == Ok::<Option<Frame>, VirusError>(None) && contents(
                    *final(src),
                ) == contents(*old(src)),
                Parsed::Invalid(e) => r == Err::<Option<Frame>, VirusError>(
                    VirusError::Protocol(e),
                ) && contents(*final(src)) == contents(*old(src)),
                Parsed::Malformed { consumed } => r == Err::<Option<Frame>, VirusError>(
                    VirusError::Decoding,
                ) && contents(*final(src)) == contents(*old(src)).skip(consumed as int),
                Parsed::Complete { frame, consumed } => r matches Ok(Some(f)) && f@ == frame
                    && contents(*final(src)) == contents(*old(src)).skip(consumed as int),
            },
    {
        let ghost b = contents(*src);
        if buffer::len(src) < FRAME_HEADER_SIZE {
            proof {
                lemma_back_is_suffix(b, 0);
            }
            return Ok(None);
        }
        let head = match decode_head(src) {
            Ok(head) => head,
            Err(e) => {
                proof {
                    lemma_back_is_suffix(b, 0);
                }
                return Err(e);
            },
        };
        let metadata_len: usize = head.metadata_length as usize;
        let payload_len: usize = head.payload_length as usize;
        let length: usize = FRAME_HEADER_SIZE + metadata_len + payload_len;

        if buffer::len(src) < length {
            // The whole frame has not arrived yet.  Make room for the rest
            // of it, so that the buffer grows once and not with every read.
            buffer::reserve(src, length - buffer::len(src));
            proof {
                lemma_back_is_suffix(b, 0);
            }
            return Ok(None);
        }
        buffer::advance(src, FRAME_HEADER_SIZE);

        let bytes = buffer::as_slice(src);
        // metadata: metadata length bytes
        let metadata = decode::<MetaData>(slice_subrange(bytes, 0, metadata_len));
        // payload: payload length bytes
        let payload = slice_to_vec(slice_subrange(bytes, metadata_len, metadata_len + payload_len));
        proof {
            let start = FRAME_HEADER_SIZE as int;
            assert(bytes@.subrange(0, metadata_len as int) =~= b.subrange(
                start,
                start + metadata_len,
            ));
            assert(payload@ =~= b.subrange(start + metadata_len, length as int));
        }

        buffer::advance(src, metadata_len + payload_len);
        proof {
            assert(contents(*src) =~= b.skip(length as int));
            lemma_back_is_suffix(b, length as int);
        }
        match metadata {
            Ok(metadata) => Ok(Some(Frame { metadata: metadata, payload: payload })),
            Err(e) => Err(e),
        }
    }
}

// ---------------------------------------------------------------------------
// Laws
// ---------------------------------------------------------------------------

/// A written header is read as it was written, whatever follows it.
proof fn lemma_head_round_trip(metadata_len: u32, payload_len: u32, b: Seq<u8>)
    requires
        metadata_len > 0,
        payload_len > 0,
        FRAME_HEADER_SIZE + metadata_len + payload_len <= MAX_FRAME_SIZE,
        b.len() >= FRAME_HEADER_SIZE,
        b.subrange(0, FRAME_HEADER_SIZE as int) == head_wire(metadata_len, payload_len),
    ensures
        parse_head(b) == Ok::<(u32, u32), ProtocolError>((metadata_len, payload_len)),
{
    let h = head_wire(metadata_len, payload_len);
    buffer::lemma_be_round_trip(metadata_len);
    buffer::lemma_be_round_trip(payload_len);
    assert(h.len() == 13);
    assert forall|i: int| 0 <= i < 13 implies b[i] == h[i] by {
        assert(b.subrange(0, FRAME_HEADER_SIZE as int)[i] == b[i]);
    }
    assert(b.subrange(0, 5) =~= marker());
    assert(b.subrange(5, 9) =~= be_bytes(metadata_len));
    assert(b.subrange(9, 13) =~= be_bytes(payload_len));
}

/// What is assembled from a metadata block and a payload is taken apart
/// into the two.
proof fn lemma_assembled(metadata: Seq<u8>, payload: Seq<u8>, rest: Seq<u8>)
    requires
        metadata.len() > 0,
        payload.len() > 0,
        FRAME_HEADER_SIZE + metadata.len() + payload.len() <= MAX_FRAME_SIZE,
    ensures
        ({
            let b = assemble(metadata, payload) + rest;
            let start = FRAME_HEADER_SIZE as int;
            &&& assemble(metadata, payload).len() == start + metadata.len() + payload.len()
            &&& parse_head(b) == Ok::<(u32, u32), ProtocolError>(
                (metadata.len() as u32, payload.len() as u32),
            )
            &&& b.subrange(start, start + metadata.len()) == metadata
            &&& b.subrange(start + metadata.len(), start + metadata.len() + payload.len())
                == payload
        }),
{
    let m = metadata.len() as u32;
    let p = payload.len() as u32;
    let b = assemble(metadata, payload) + rest;
    let start = FRAME_HEADER_SIZE as int;
    assert(head_wire(m, p).len() == 13);
    assert(b.subrange(0, start) =~= head_wire(m, p));
    lemma_head_round_trip(m, p, b);
    assert(b.subrange(start, start + metadata.len()) =~= metadata);
    assert(b.subrange(start + metadata.len(), start + metadata.len() + payload.len())
        =~= payload);
}

/// Round trip: what `encode` writes of a valid frame, `decode` reads as that
/// frame, metadata and payload alike, and consumes exactly the bytes that
/// were written.  What follows the frame in the buffer plays no part.
pub proof fn lemma_frame_round_trip(f: FrameView, rest: Seq<u8>)
    requires
        valid_frame(f),
    ensures
        parse_frame(frame_wire(f) + rest) == (Parsed::Complete { frame: f, consumed: frame_len(f) }),
        frame_wire(f).len() == frame_len(f),
{
    lemma_assembled(metadata_wire(f), f.payload, rest);
    MetaData::lemma_round_trip(f.metadata);
}

/// A part of what is assembled, cut anywhere, is incomplete.
proof fn lemma_part_is_incomplete(metadata: Seq<u8>, payload: Seq<u8>, k: int)
    requires
        metadata.len() > 0,
        payload.len() > 0,
        FRAME_HEADER_SIZE + metadata.len() + payload.len() <= MAX_FRAME_SIZE,
        0 <= k < FRAME_HEADER_SIZE + metadata.len() + payload.len(),
    ensures
        parse_frame(assemble(metadata, payload).take(k)) == Parsed::Incomplete,
{
    let m = metadata.len() as u32;
    let p = payload.len() as u32;
    let b = assemble(metadata, payload).take(k);
    let start = FRAME_HEADER_SIZE as int;
    assert(head_wire(m, p).len() == 13);
    if k >= start {
        assert(b.subrange(0, start) =~= head_wire(m, p));
        lemma_head_round_trip(m, p, b);
    }
}

/// Incremental assembly: while only a part of a written frame has arrived,
/// wherever the bytes were cut, `decode` reports that the frame is
/// incomplete.  It then leaves the buffer as it is, so once the last piece
/// has been appended the buffer holds the whole frame, which is read as
/// `lemma_frame_round_trip` says.
pub proof fn lemma_incremental_assembly(f: FrameView, k: int)
    requires
        valid_frame(f),
        0 <= k < frame_len(f),
    ensures
        parse_frame(frame_wire(f).take(k)) == Parsed::Incomplete,
{
    lemma_part_is_incomplete(metadata_wire(f), f.payload, k);
}

/// Undersized header: fewer than thirteen bytes are never an error.
pub proof fn lemma_short_is_incomplete(b: Seq<u8>)
    requires
        b.len() < FRAME_HEADER_SIZE,
    ensures
        parse_frame(b) == Parsed::Incomplete,
{
}

/// Oversize: a header that declares more than the maximum frame size is a
/// protocol error as soon as its thirteen bytes are there, however few
/// bytes follow.
pub proof fn lemma_oversize_is_rejected(b: Seq<u8>)
    requires
        b.len() >= FRAME_HEADER_SIZE,
        FRAME_HEADER_SIZE + be_value(b.subrange(5, 9)) + be_value(b.subrange(9, 13))
            > MAX_FRAME_SIZE,
    ensures
        parse_frame(b) is Invalid,
        b.subrange(0, 5) == marker() && be_value(b.subrange(5, 9)) != 0 && be_value(
            b.subrange(9, 13),
        ) != 0 ==> parse_frame(b) == Parsed::Invalid(ProtocolError::FrameTooLong),
{
}

} // verus!
