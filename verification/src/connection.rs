//! The part of a connection that decides.
//!
//! A connection reads bytes until a frame can be taken from them or the
//! stream ends, and writes frames as bytes.  Reading and writing the stream
//! is the caller's work.  What happens to the bytes in between is decided
//! here: `Driver` owns the inbound and the outbound buffer, the caller tells
//! it what the stream did, and it answers what to do next.

use crate::buffer;
use crate::buffer::contents;
use crate::codec::Decoder;
use crate::codec::Encoder;
use crate::error::ProtocolError;
use crate::error::VirusError;
use crate::frame::frame_len;
use crate::frame::frame_wire;
use crate::frame::parse_frame;
use crate::frame::Frame;
use crate::frame::FrameCodec;
use crate::frame::Parsed;
use crate::frame::MAX_FRAME_SIZE;
use bytes::BytesMut;
use vstd::prelude::*;
use vstd::slice::slice_to_vec;

verus! {

/// The capacity that both buffers start with.
pub const INITIAL_CAPACITY: usize = 4096;

/// What the stream did since the driver was last asked.
pub enum ReadEvent<'a> {
    /// Nothing yet: a frame is wanted.
    Start,
    /// A read gave these bytes.
    Data(&'a [u8]),
    /// A read gave no bytes: the stream has ended.
    Closed,
}

/// What the caller has to do next.
#[derive(Debug)]
pub enum ReadAction {
    /// Hand this frame on.
    Deliver(Frame),
    /// Read more bytes from the stream and report them.
    Read,
    /// The peer closed the stream between two frames: there are no more.
    End,
}

/// The buffers of one connection and the frame codec that works on them.
#[derive(Debug)]
pub struct Driver {
    // the buffer for reading frames.
    inbound_buffer: BytesMut,
    // the buffer for writing frames.
    outbound_buffer: BytesMut,
    // encode and decode frame.
    codec: FrameCodec,
}

/// The outcome of trying to take a frame from the bytes `buffered`: the
/// answer `r` and the bytes `left` in the buffer afterwards.
pub open spec fn polled(buffered: Seq<u8>, r: Result<ReadAction, VirusError>, left: Seq<u8>) -> bool {
    match parse_frame(buffered) {
        Parsed::Incomplete => r matches Ok(ReadAction::Read) && left == buffered,
        Parsed::Invalid(e) => r == Err::<ReadAction, VirusError>(VirusError::Protocol(e)) && left
            == buffered,
        Parsed::Malformed { consumed } => r == Err::<ReadAction, VirusError>(VirusError::Decoding)
            && left == buffered.skip(consumed as int),
        Parsed::Complete { frame, consumed } => r matches Ok(ReadAction::Deliver(f)) && f@ == frame
            && left == buffered.skip(consumed as int),
    }
}

/// The outcome of the end of the stream with the bytes `buffered` left over.
pub open spec fn closed(buffered: Seq<u8>, r: Result<ReadAction, VirusError>) -> bool {
    if buffered.len() == 0 {
        r matches Ok(ReadAction::End)
    } else {
        r == Err::<ReadAction, VirusError>(VirusError::PeerReset)
    }
}

impl Driver {
    /// The bytes that were received and not yet taken as frames.
    pub closed spec fn inbound(&self) -> Seq<u8> {
        contents(self.inbound_buffer)
    }

    /// The bytes that were staged and not yet reported as written.
    pub closed spec fn outbound(&self) -> Seq<u8> {
        contents(self.outbound_buffer)
    }

    /// A driver with two empty buffers.
    pub fn new() -> (driver: Self)
        ensures
            driver.inbound().len() == 0,
            driver.outbound().len() == 0,
    {
        Driver {
            inbound_buffer: buffer::with_capacity(INITIAL_CAPACITY),
            outbound_buffer: buffer::with_capacity(INITIAL_CAPACITY),
            codec: FrameCodec {  },
        }
    }

    /// Takes the frame at the front of the inbound buffer, if a whole one is
    /// there.
    fn poll(&mut self) -> (r: Result<ReadAction, VirusError>)
        ensures
            final(self).outbound() == old(self).outbound(),
            polled(old(self).inbound(), r, final(self).inbound()),
    {
        match self.codec.decode(&mut self.inbound_buffer) {
            Ok(Some(frame)) => Ok(ReadAction::Deliver(frame)),
            Ok(None) => Ok(ReadAction::Read),
            Err(e) => Err(e),
        }
    }

    /// One step of reading a frame.
    ///
    /// At the start, and whenever bytes have arrived, the driver tries to
    /// take a frame from what is buffered: a whole frame is delivered and
    /// leaves the buffer, an incomplete one asks for another read.  When
    /// the stream has ended, an empty buffer is a clean shutdown, and
    /// anything left in the buffer means that the peer closed the stream in
    /// the middle of a frame.
    pub fn on_read(&mut self, event: ReadEvent<'_>) -> (r: Result<ReadAction, VirusError>)
        ensures
            final(self).outbound() == old(self).outbound(),
            match event {
                ReadEvent::Start => polled(old(self).inbound(), r, final(self).inbound()),
                ReadEvent::Data(bytes) => polled(
                    old(self).inbound() + bytes@,
                    r,
                    final(self).inbound(),
                ),
                ReadEvent::Closed => closed(old(self).inbound(), r) && final(self).inbound()
                    == old(self).inbound(),
            },
    {
        match event {
            ReadEvent::Start => self.poll(),
            ReadEvent::Data(bytes) => {
                buffer::put_slice(&mut self.inbound_buffer, bytes);
                self.poll()
            },
            ReadEvent::Closed => {
                // The remote closed the connection.  For this to be a clean
                // shutdown, there should be no data in the read buffer.  If
                // there is, the peer closed the socket while sending a frame.
                if buffer::len(&self.inbound_buffer) == 0 {
                    Ok(ReadAction::End)
                } else {
                    Err(VirusError::PeerReset)
                }
            },
        }
    }

    /// Stages `frame` for writing: its bytes are appended to the outbound
    /// buffer.  A frame that is too long is rejected and nothing is staged.
    pub fn stage(&mut self, frame: Frame) -> (r: Result<(), VirusError>)
        ensures
            final(self).inbound() == old(self).inbound(),
            frame_len(frame@) <= MAX_FRAME_SIZE ==> r is Ok && final(self).outbound() == old(
                self,
            ).outbound() + frame_wire(frame@),
            frame_len(frame@) > MAX_FRAME_SIZE ==> r == Err::<(), VirusError>(
                VirusError::Protocol(ProtocolError::FrameTooLong),
            ) && final(self).outbound() == old(self).outbound(),
    {
        self.codec.encode(frame, &mut self.outbound_buffer)
    }

    /// The bytes that are staged: what the caller has to write and flush.
    pub fn staged(&self) -> (bytes: Vec<u8>)
        ensures
            bytes@ == self.outbound(),
    {
        slice_to_vec(buffer::as_slice(&self.outbound_buffer))
    }

    /// Records that everything staged has been written: the outbound buffer
    /// is empty again.
    pub fn written(&mut self)
        ensures
            final(self).inbound() == old(self).inbound(),
            final(self).outbound().len() == 0,
    {
        let staged: usize = buffer::len(&self.outbound_buffer);
        buffer::advance(&mut self.outbound_buffer, staged);
    }
}

} // verus!
