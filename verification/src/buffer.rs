//! The growable byte buffer that the stream codecs read from and write to.
//!
//! The buffer is `bytes::BytesMut`.  Verus does not look inside it; this
//! module declares the type, names what it holds, and gives each method the
//! codecs use a contract over that name.  The contracts of the functions
//! that call into `bytes` are assumed, not proved.

use bytes::Buf;
use bytes::BufMut;
use bytes::BytesMut;
use vstd::prelude::*;

verus! {

#[verifier::external_type_specification]
#[verifier::external_body]
pub struct ExBytesMut(bytes::BytesMut);

/// The bytes held by a buffer, front first.
pub uninterp spec fn contents(buf: BytesMut) -> Seq<u8>;

/// The four bytes of `v`, most significant first.
pub open spec fn be_bytes(v: u32) -> Seq<u8> {
    seq![
        (v / 0x100_0000) as u8,
        ((v / 0x1_0000) % 0x100) as u8,
        ((v / 0x100) % 0x100) as u8,
        (v % 0x100) as u8,
    ]
}

/// The number whose big-endian digits are the first four bytes of `b`.
pub open spec fn be_value(b: Seq<u8>) -> int
    recommends
        b.len() >= 4,
{
    b[0] * 0x100_0000 + b[1] * 0x1_0000 + b[2] * 0x100 + b[3]
}

/// `BytesMut::with_capacity`: a buffer that holds no bytes.  The capacity
/// must be representable; what was reserved is not part of the contract.
#[verifier::external_body]
pub(crate) fn with_capacity(capacity: usize) -> (buf: BytesMut)
    requires
        capacity <= isize::MAX,
    ensures
        contents(buf) == Seq::<u8>::empty(),
{
    BytesMut::with_capacity(capacity)
}

/// `BytesMut::len`: the number of bytes held.
#[verifier::external_body]
pub(crate) fn len(buf: &BytesMut) -> (n: usize)
    ensures
        n == contents(*buf).len(),
{
    buf.len()
}

/// `BytesMut`'s `Deref` to `[u8]`: the bytes held, as a slice.
#[verifier::external_body]
pub(crate) fn as_slice(buf: &BytesMut) -> (s: &[u8])
    ensures
        s@ == contents(*buf),
{
    buf
}

/// `BufMut::put_slice` on a `BytesMut`: appends `src` at the back.  The
/// buffer grows as needed, limited only by the allocator, like a `Vec`.
#[verifier::external_body]
pub(crate) fn put_slice(buf: &mut BytesMut, src: &[u8])
    ensures
        contents(*final(buf)) == contents(*old(buf)) + src@,
{
    buf.put_slice(src)
}

/// `BufMut::put_u32` on a `BytesMut`: appends the four bytes of `v`, most
/// significant first.
#[verifier::external_body]
pub(crate) fn put_u32(buf: &mut BytesMut, v: u32)
    ensures
        contents(*final(buf)) == contents(*old(buf)) + be_bytes(v),
{
    buf.put_u32(v)
}

/// `Buf::get_u32` on a slice: the big-endian number in its first four bytes.
/// The slice must hold at least four bytes.
#[verifier::external_body]
pub(crate) fn get_u32(src: &[u8]) -> (v: u32)
    requires
        src@.len() >= 4,
    ensures
        v == be_value(src@),
{
    let mut cursor: &[u8] = src;
    cursor.get_u32()
}

/// `Buf::advance` on a `BytesMut`: drops the first `n` bytes.  `n` must not
/// exceed the number of bytes held.
#[verifier::external_body]
pub(crate) fn advance(buf: &mut BytesMut, n: usize)
    requires
        n <= contents(*old(buf)).len(),
    ensures
        contents(*final(buf)) == contents(*old(buf)).skip(n as int),
{
    buf.advance(n)
}

/// `BytesMut::reserve`: makes room for `additional` more bytes and leaves
/// the bytes held as they are.  The new capacity must be representable.
#[verifier::external_body]
pub(crate) fn reserve(buf: &mut BytesMut, additional: usize)
    requires
        contents(*old(buf)).len() + additional <= isize::MAX,
    ensures
        contents(*final(buf)) == contents(*old(buf)),
{
    buf.reserve(additional)
}

/// Writing a number and reading it back gives the number.
pub proof fn lemma_be_round_trip(v: u32)
    ensures
        be_bytes(v).len() == 4,
        be_value(be_bytes(v)) == v,
{
}

} // verus!
