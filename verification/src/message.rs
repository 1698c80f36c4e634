//! The message: a frame whose payload has been decoded into a typed body.

use crate::buffer::contents;
use crate::codec::Decoder;
use crate::codec::Encoder;
use crate::error::ProtocolError;
use crate::error::VirusError;
use crate::frame::frame_len;
use crate::frame::frame_wire;
use crate::frame::lemma_frame_round_trip;
use crate::frame::parse_frame;
use crate::frame::valid_frame;
use crate::frame::Frame;
use crate::frame::FrameCodec;
use crate::frame::FrameView;
use crate::frame::Parsed;
use crate::frame::MAX_FRAME_SIZE;
use crate::keyed::find_key;
use crate::keyed::put;
use crate::keyed::put_entry;
use crate::keyed::value_of;
use crate::protocol::protocol::MetaData;
use crate::protocol::protocol::MetaDataView;
use crate::protocol::wire;
use crate::protocol::wire::parse;
use crate::protocol::wire::ProtoMessage;
use crate::protocol::wire::RoundTrip;
use crate::protocol::CompressType;
use crate::protocol::MessageType;
use crate::protocol::RoleType;
use bytes::BytesMut;
use vstd::prelude::*;

verus! {

/// Metadata and a typed body.
#[derive(Debug, Clone)]
pub struct Message<T> {
    metadata: MetaData,
    body: T,
}

/// What a `Message` holds.
pub struct MessageView<V> {
    pub metadata: MetaDataView,
    pub body: V,
}

impl<T: View> View for Message<T> {
    type V = MessageView<T::V>;

    closed spec fn view(&self) -> MessageView<T::V> {
        MessageView { metadata: self.metadata@, body: self.body@ }
    }
}

/// The frame that carries a message: the same metadata, and the body as its
/// codec writes it.
pub open spec fn frame_of<T: ProtoMessage>(m: MessageView<T::V>) -> FrameView {
    FrameView { metadata: m.metadata, payload: T::wire(m.body) }
}

impl<T: View> Message<T> {
    #[inline]
    pub fn new(metadata: MetaData, body: T) -> (message: Self)
        ensures
            message@ == (MessageView { metadata: metadata@, body: body@ }),
    {
        Message { metadata: metadata, body: body }
    }

    /// The metadata of the message.
    pub fn metadata(&self) -> (m: &MetaData)
        ensures
            m@ == self@.metadata,
    {
        &self.metadata
    }

    /// The body of the message.
    pub fn body(&self) -> (b: &T)
        ensures
            b@ == self@.body,
    {
        &self.body
    }

    #[inline]
    pub fn compress_type(&self) -> (t: CompressType)
        ensures
            t == CompressType::of(self@.metadata.compress_type),
    {
        CompressType::from(self.metadata.compress_type)
    }

    #[inline]
    pub fn message_type(&self) -> (t: MessageType)
        ensures
            t == MessageType::of(self@.metadata.message_type),
    {
        MessageType::from(self.metadata.message_type)
    }

    #[inline]
    pub fn role_type(&self) -> (t: RoleType)
        ensures
            t == RoleType::of(self@.metadata.role),
    {
        RoleType::from(self.metadata.role)
    }

    /// The value that the auxiliary entries give to the key `k`.
    #[inline]
    pub fn get(&self, k: &String) -> (r: Option<&String>)
        ensures
            match r {
                Some(v) => value_of(self@.metadata.values, k@) == Some(v@),
                None => value_of(self@.metadata.values, k@) is None,
            },
    {
        match find_key(&self.metadata.values, k) {
            Some(i) => Some(&self.metadata.values[i].1),
            None => None,
        }
    }

    /// Gives the key `k` the value `v` and returns the value it had.
    /// Nothing else of the message changes.
    #[inline]
    pub fn set(&mut self, k: String, v: String) -> (r: Option<String>)
        ensures
            final(self)@ == (MessageView {
                metadata: MetaDataView {
                    values: put(old(self)@.metadata.values, k@, v@),
                    ..old(self)@.metadata
                },
                body: old(self)@.body,
            }),
            match r {
                Some(before) => value_of(old(self)@.metadata.values, k@) == Some(before@),
                None => value_of(old(self)@.metadata.values, k@) is None,
            },
    {
        put_entry(&mut self.metadata.values, k, v)
    }
}

impl<T: ProtoMessage> Message<T> {
    /// The number of bytes of the body as it is written.
    #[inline]
    pub fn body_length(&self) -> (n: usize)
        requires
            T::wire(self@.body).len() <= usize::MAX,
        ensures
            n == T::wire(self@.body).len(),
    {
        self.body.encoded_len()
    }

    /// The number of bytes of the metadata as it is written.
    #[inline]
    pub fn meta_length(&self) -> (n: usize)
        requires
            MetaData::wire(self@.metadata).len() <= usize::MAX,
        ensures
            n == MetaData::wire(self@.metadata).len(),
    {
        self.metadata.encoded_len()
    }
}

/// Appends `msg` to `dst` as the frame that carries it.  A message whose
/// frame would be too long is rejected and nothing is appended.
pub fn encode<T: ProtoMessage>(msg: Message<T>, dst: &mut BytesMut) -> (r: Result<(), VirusError>)
    ensures
        frame_len(frame_of::<T>(msg@)) <= MAX_FRAME_SIZE ==> r is Ok && contents(*final(dst))
            == contents(*old(dst)) + frame_wire(frame_of::<T>(msg@)),
        frame_len(frame_of::<T>(msg@)) > MAX_FRAME_SIZE ==> r == Err::<(), VirusError>(
            VirusError::Protocol(ProtocolError::FrameTooLong),
        ) && contents(*final(dst)) == contents(*old(dst)),
{
    let payload = wire::encode_to_vec(&msg.body);
    let frame = Frame::new(msg.metadata, payload);
    let mut codec = FrameCodec {  };
    codec.encode(frame, dst)
}

/// Takes the message at the front of `src`.  The frame is taken as
/// `FrameCodec` takes it; the payload of a whole frame is then read as a
/// body of type `T`, and a payload that is no such body is a decoding error
/// that leaves the frame consumed.
pub fn decode<T: ProtoMessage>(src: &mut BytesMut) -> (r: Result<Option<Message<T>>, VirusError>)
    ensures
        match parse_frame(contents(*old(src))) {
            Parsed::Incomplete => r == Ok::<Option<Message<T>>, VirusError>(None) && contents(
                *final(src),
            ) == contents(*old(src)),
            Parsed::Invalid(e) => r == Err::<Option<Message<T>>, VirusError>(
                VirusError::Protocol(e),
            ) && contents(*final(src)) == contents(*old(src)),
            Parsed::Malformed { consumed } => r == Err::<Option<Message<T>>, VirusError>(
                VirusError::Decoding,
            ) && contents(*final(src)) == contents(*old(src)).skip(consumed as int),
            Parsed::Complete { frame, consumed } => contents(*final(src)) == contents(
                *old(src),
            ).skip(consumed as int) && match parse::<T>(frame.payload) {
                Some(body) => r matches Ok(Some(m)) && m@ == (MessageView {
                    metadata: frame.metadata,
                    body: body,
                }),
                None => r == Err::<Option<Message<T>>, VirusError>(VirusError::Decoding),
            },
        },
{
    let mut codec = FrameCodec {  };
    let frame = match codec.decode(src) {
        Ok(Some(frame)) => frame,
        Ok(None) => {
            return Ok(None);
        },
        Err(e) => {
            return Err(e);
        },
    };
    let (metadata, payload) = frame.into_parts();
    match wire::decode::<T>(payload.as_slice()) {
        Ok(body) => Ok(Some(Message::new(metadata, body))),
        Err(e) => Err(e),
    }
}

/// Round trip: the frame that `encode` writes for a message is read by
/// `decode` as a frame with the message's metadata, whose payload is read
/// as the message's body.
pub proof fn lemma_message_round_trip<T: RoundTrip>(m: MessageView<T::V>, rest: Seq<u8>)
    requires
        valid_frame(frame_of::<T>(m)),
        T::canonical(m.body),
    ensures
        parse_frame(frame_wire(frame_of::<T>(m)) + rest) == (Parsed::Complete {
            frame: frame_of::<T>(m),
            consumed: frame_len(frame_of::<T>(m)),
        }),
        parse::<T>(frame_of::<T>(m).payload) == Some(m.body),
{
    lemma_frame_round_trip(frame_of::<T>(m), rest);
    T::lemma_round_trip(m.body);
}

} // verus!
