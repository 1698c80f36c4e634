//! The four capabilities that the layers above the wire depend on.
//!
//! A stream encoder and a stream decoder work on a growable buffer that may
//! hold less or more than one value.  A serializer and a deserializer work
//! on a block of bytes whose bounds are known.

pub mod bincode;
pub mod proto;

use crate::buffer::contents;
use crate::codec::bincode::lemma_compact_round_trip;
use crate::codec::bincode::BincodeCodec;
use crate::codec::bincode::CompactRoundTrip;
use crate::codec::proto::lemma_proto_round_trip;
use crate::codec::proto::ProtoCodec;
use crate::frame::frame_len;
use crate::frame::frame_wire;
use crate::frame::lemma_frame_round_trip;
use crate::frame::parse_frame;
use crate::frame::valid_frame;
use crate::frame::FrameView;
use crate::frame::Parsed;
use crate::protocol::protocol::Demo;
use crate::protocol::protocol::DemoView;
use crate::protocol::protocol::MetaDataView;
use crate::protocol::wire::ProtoMessage;
use bytes::BytesMut;
use vstd::prelude::*;

verus! {

/// Encodes values into a byte stream.
pub trait Encoder {
    /// The type that is encoded.
    type Item;

    /// The type of encoding errors.
    type Error;

    /// Appends the encoding of `item` to `dst`.  A call that fails leaves
    /// `dst` as it was: nothing is ever written in part.
    fn encode(&mut self, item: Self::Item, dst: &mut BytesMut) -> (r: Result<(), Self::Error>)
        ensures
            r is Ok ==> contents(*old(dst)).is_prefix_of(contents(*final(dst))),
            r is Err ==> contents(*final(dst)) == contents(*old(dst)),
    ;
}

/// Decodes values from a byte stream.
pub trait Decoder {
    /// The type that is decoded.
    type Item;

    /// The type of decoding errors.
    type Error;

    /// Takes one value from the front of `src`.  `Ok(None)` means that `src`
    /// does not hold a whole value yet; nothing is consumed then.  Whatever
    /// the outcome, what stays in `src` is the back of what was there.
    fn decode(&mut self, src: &mut BytesMut) -> (r: Result<Option<Self::Item>, Self::Error>)
        ensures
            r matches Ok(None) ==> contents(*final(src)) == contents(*old(src)),
            contents(*final(src)).is_suffix_of(contents(*old(src))),
    ;
}

/// Turns values into blocks of bytes.
pub trait Serializer {
    /// The type that is serialized.
    type Item: View;

    /// The type of serialization errors.
    type Error;

    /// The values that the codec can write.
    spec fn accepts(v: <Self::Item as View>::V) -> bool;

    /// The bytes that stand for a value.
    spec fn encoding(v: <Self::Item as View>::V) -> Seq<u8>;

    /// Serializes `item` into a fresh block.  A value that the codec
    /// accepts is written; any other is an error.
    fn serialize(&mut self, item: Self::Item) -> (r: Result<Vec<u8>, Self::Error>)
        ensures
            Self::accepts(item@) ==> (r matches Ok(bytes) && bytes@ == Self::encoding(item@)),
            !Self::accepts(item@) ==> r is Err,
    ;
}

/// Turns blocks of bytes into values.
pub trait Deserializer {
    /// The type that is deserialized.
    type Item: View;

    /// The type of deserialization errors.
    type Error;

    /// The value that a block stands for; `None` where it stands for none.
    spec fn decoding(src: Seq<u8>) -> Option<<Self::Item as View>::V>;

    /// Deserializes the block `src`.  The block is whole by construction, so
    /// the result is a value or an error, never `Ok(None)`.
    fn deserialize(&mut self, src: &[u8]) -> (r: Result<Option<Self::Item>, Self::Error>)
        ensures
            match Self::decoding(src@) {
                Some(v) => r matches Ok(Some(item)) && item@ == v,
                None => r is Err,
            },
    ;
}

/// Codec interchangeability: both codecs read a body back as they wrote
/// it, and a frame carries the bytes of either alike.  Whichever codec wrote
/// the payload, the frame is read back with its metadata and exactly those
/// bytes.
pub proof fn lemma_codecs_interchangeable(metadata: MetaDataView, body: DemoView, rest: Seq<u8>)
    requires
        Demo::canonical(body),
        Demo::fits(body),
        valid_frame(FrameView { metadata, payload: ProtoCodec::<Demo>::encoding(body) }),
        valid_frame(FrameView { metadata, payload: BincodeCodec::<Demo>::encoding(body) }),
    ensures
        ({
            let schemad = FrameView { metadata, payload: ProtoCodec::<Demo>::encoding(body) };
            let compact = FrameView { metadata, payload: BincodeCodec::<Demo>::encoding(body) };
            &&& ProtoCodec::<Demo>::decoding(schemad.payload) == Some(body)
            &&& BincodeCodec::<Demo>::decoding(compact.payload) == Some(body)
            &&& parse_frame(frame_wire(schemad) + rest) == (Parsed::Complete {
                frame: schemad,
                consumed: frame_len(schemad),
            })
            &&& parse_frame(frame_wire(compact) + rest) == (Parsed::Complete {
                frame: compact,
                consumed: frame_len(compact),
            })
        }),
{
    let none = Seq::<u8>::empty();
    let schemad = FrameView { metadata, payload: ProtoCodec::<Demo>::encoding(body) };
    let compact = FrameView { metadata, payload: BincodeCodec::<Demo>::encoding(body) };
    lemma_proto_round_trip::<Demo>(body);
    lemma_compact_round_trip::<Demo>(body, none);
    assert(compact.payload + none =~= compact.payload);
    lemma_frame_round_trip(schemad, rest);
    lemma_frame_round_trip(compact, rest);
}

} // verus!
