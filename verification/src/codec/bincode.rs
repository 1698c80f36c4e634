//! The compact codec: values in the schema-less binary format of `bincode`.
//!
//! A value is written as its parts, one after the other, with nothing in
//! between: a string as the number of its bytes in eight little-endian
//! bytes and then the bytes, a 32-bit number as four little-endian bytes.
//! Reading takes the parts off the front; bytes behind the last part are
//! left alone.

use crate::codec::Deserializer;
use crate::codec::Serializer;
use crate::error::VirusError;
use crate::protocol::protocol::Demo;
use crate::protocol::protocol::DemoView;
use std::marker::PhantomData;
use vstd::prelude::*;
use vstd::utf8::decode_utf8;
use vstd::utf8::encode_utf8;
use vstd::utf8::valid_utf8;

verus! {

// ---------------------------------------------------------------------------
// The format
// ---------------------------------------------------------------------------

/// The `n` least significant bytes of `v`, least significant first.
pub open spec fn le_bytes(v: nat, n: nat) -> Seq<u8>
    decreases n,
{
    if n == 0 {
        Seq::<u8>::empty()
    } else {
        seq![(v % 0x100) as u8] + le_bytes(v / 0x100, (n - 1) as nat)
    }
}

/// The number whose little-endian digits are the first `n` bytes of `b`.
pub open spec fn le_value(b: Seq<u8>, n: nat) -> nat
    decreases n,
{
    if n == 0 {
        0
    } else {
        b[0] as nat + 0x100 * le_value(b.skip(1), (n - 1) as nat)
    }
}

/// A 32-bit number as the unsigned number with the same bits.
pub open spec fn unsigned(x: i32) -> nat {
    if x >= 0 {
        x as nat
    } else {
        (0x1_0000_0000 + x) as nat
    }
}

/// The 32-bit number with the bits of `v`.
pub open spec fn signed(v: nat) -> i32 {
    if v < 0x8000_0000 {
        v as i32
    } else {
        (v - 0x1_0000_0000) as i32
    }
}

/// A `Demo` in the compact format: the text, then the number.
pub open spec fn demo_compact(v: DemoView) -> Seq<u8> {
    le_bytes(encode_utf8(v.field1).len(), 8) + encode_utf8(v.field1) + le_bytes(
        unsigned(v.field2),
        4,
    )
}

/// The `Demo` at the front of `b`; `None` where `b` ends before the value
/// does or the text is not UTF-8.
pub open spec fn demo_expand(b: Seq<u8>) -> Option<DemoView> {
    if b.len() < 8 {
        None
    } else {
        let len = le_value(b, 8);
        if len > b.len() - 8 {
            None
        } else {
            let text = b.subrange(8, 8 + len as int);
            let rest = b.skip(8 + len as int);
            if !valid_utf8(text) || rest.len() < 4 {
                None
            } else {
                Some(DemoView { field1: decode_utf8(text), field2: signed(le_value(rest, 4)) })
            }
        }
    }
}

// ---------------------------------------------------------------------------
// What is assumed of `bincode`
// ---------------------------------------------------------------------------

#[verifier::external_type_specification]
#[verifier::external_body]
pub struct ExErrorKind(bincode::ErrorKind);

/// `bincode::serialize` on a pair of a string and a 32-bit number: it
/// succeeds, and the bytes are the two parts in the compact format.  The
/// size is not limited and the bytes go into a vector, so nothing on the
/// way can fail.
#[verifier::external_body]
fn serialize_text_and_number(text: &String, number: i32) -> (r: Result<
    Vec<u8>,
    Box<bincode::ErrorKind>,
>)
    ensures
        match r {
            Ok(bytes) => bytes@ == le_bytes(encode_utf8(text@).len(), 8) + encode_utf8(text@)
                + le_bytes(unsigned(number), 4),
            Err(_) => false,
        },
{
    bincode::serialize(&(text, number))
}

/// `bincode::deserialize` to a pair of a string and a 32-bit number: the
/// pair at the front of `src`, or an error where `src` ends too early or
/// the text is not UTF-8.
#[verifier::external_body]
fn deserialize_text_and_number(src: &[u8]) -> (r: Result<(String, i32), Box<bincode::ErrorKind>>)
    ensures
        match demo_expand(src@) {
            Some(v) => r matches Ok((text, number)) && text@ == v.field1 && number == v.field2,
            None => r is Err,
        },
{
    bincode::deserialize::<(String, i32)>(src)
}

// ---------------------------------------------------------------------------
// The codec
// ---------------------------------------------------------------------------

/// A value that has a compact format.
pub trait Compact: View + Sized {
    /// The values that the compact format can hold.
    spec fn writable(v: Self::V) -> bool;

    /// The value in the compact format.
    spec fn compact(v: Self::V) -> Seq<u8>;

    /// The value at the front of `src`; `None` where there is none.
    spec fn expand(src: Seq<u8>) -> Option<Self::V>;

    /// Writes the value in the compact format.  A value that the format can
    /// hold is written; any other is an encoding error.
    fn to_compact(&self) -> (r: Result<Vec<u8>, VirusError>)
        ensures
            Self::writable(self@) ==> (r matches Ok(bytes) && bytes@ == Self::compact(self@)),
            !Self::writable(self@) ==> r == Err::<Vec<u8>, VirusError>(VirusError::Encoding),
    ;

    /// Reads the value at the front of `src`.
    fn from_compact(src: &[u8]) -> (r: Result<Self, VirusError>)
        ensures
            match Self::expand(src@) {
                Some(v) => r matches Ok(value) && value@ == v,
                None => r == Err::<Self, VirusError>(VirusError::Decoding),
            },
    ;
}

/// The law that a type with a compact format has to keep: reading what was
/// written of a value gives the value, whatever follows it.
pub trait CompactRoundTrip: Compact {
    /// The values whose parts fit the fields that the format has for them.
    spec fn fits(v: Self::V) -> bool;

    proof fn lemma_expand_compact(v: Self::V, rest: Seq<u8>)
        requires
            Self::writable(v),
            Self::fits(v),
        ensures
            Self::expand(Self::compact(v) + rest) == Some(v),
    ;
}

impl Compact for Demo {
    /// Every text and every number can be written.
    open spec fn writable(v: DemoView) -> bool {
        true
    }

    open spec fn compact(v: DemoView) -> Seq<u8> {
        demo_compact(v)
    }

    open spec fn expand(src: Seq<u8>) -> Option<DemoView> {
        demo_expand(src)
    }

    fn to_compact(&self) -> (r: Result<Vec<u8>, VirusError>) {
        match serialize_text_and_number(&self.field1, self.field2) {
            Ok(bytes) => Ok(bytes),
            Err(_) => Err(VirusError::Encoding),
        }
    }

    fn from_compact(src: &[u8]) -> (r: Result<Self, VirusError>) {
        match deserialize_text_and_number(src) {
            Ok((text, number)) => Ok(Demo { field1: text, field2: number }),
            Err(_) => Err(VirusError::Decoding),
        }
    }
}

/// The codec for values of type `T`.  It holds no state.
#[derive(Debug)]
pub struct BincodeCodec<T>(PhantomData<T>);

impl<T> Clone for BincodeCodec<T> {
    fn clone(&self) -> (codec: Self) {
        BincodeCodec(PhantomData)
    }
}

impl<T: Compact> Serializer for BincodeCodec<T> {
    type Item = T;

    type Error = VirusError;

    open spec fn accepts(v: T::V) -> bool {
        T::writable(v)
    }

    open spec fn encoding(v: T::V) -> Seq<u8> {
        T::compact(v)
    }

    /// Writes `item` in the compact format.  A value that the format cannot
    /// hold is an encoding error.
    fn serialize(&mut self, item: T) -> (r: Result<Vec<u8>, VirusError>)
        ensures
            r is Err ==> r == Err::<Vec<u8>, VirusError>(VirusError::Encoding),
    {
        item.to_compact()
    }
}

impl<T: Compact> Deserializer for BincodeCodec<T> {
    type Item = T;

    type Error = VirusError;

    open spec fn decoding(src: Seq<u8>) -> Option<T::V> {
        T::expand(src)
    }

    /// Reads the value at the front of `src`; a block that holds none is a
    /// decoding error.
    fn deserialize(&mut self, src: &[u8]) -> (r: Result<Option<T>, VirusError>)
        ensures
            r is Err ==> r == Err::<Option<T>, VirusError>(VirusError::Decoding),
    {
        match T::from_compact(src) {
            Ok(item) => Ok(Some(item)),
            Err(e) => Err(e),
        }
    }
}

impl<T> Default for BincodeCodec<T> {
    fn default() -> (codec: Self) {
        BincodeCodec(PhantomData)
    }
}

// ---------------------------------------------------------------------------
// Laws
// ---------------------------------------------------------------------------

/// Reading little-endian bytes gives the number that was written.
pub proof fn lemma_le_round_trip(v: nat, n: nat, rest: Seq<u8>)
    ensures
        le_bytes(v, n).len() == n,
        n == 4 && v < 0x1_0000_0000 ==> le_value(le_bytes(v, n) + rest, n) == v,
        n == 8 && v < 0x1_0000_0000_0000_0000 ==> le_value(le_bytes(v, n) + rest, n) == v,
{
    lemma_le_len(v, n);
    if n == 4 && v < 0x1_0000_0000 {
        lemma_le_digits(v, 4, rest);
        assert(v / 0x100 / 0x100 / 0x100 / 0x100 == 0);
        assert(le_tail(v, 4) == 0) by {
            reveal_with_fuel(le_tail, 5);
        }
    }
    if n == 8 && v < 0x1_0000_0000_0000_0000 {
        lemma_le_digits(v, 8, rest);
        assert(v / 0x100 / 0x100 / 0x100 / 0x100 / 0x100 / 0x100 / 0x100 / 0x100 == 0);
        assert(le_tail(v, 8) == 0) by {
            reveal_with_fuel(le_tail, 9);
        }
    }
}

/// What is left of `v` above its `n` least significant bytes.
pub open spec fn le_tail(v: nat, n: nat) -> nat
    decreases n,
{
    if n == 0 {
        v
    } else {
        le_tail(v / 0x100, (n - 1) as nat)
    }
}

/// The power of 256 that the `n`-th byte counts.
pub open spec fn le_weight(n: nat) -> nat
    decreases n,
{
    if n == 0 {
        1
    } else {
        0x100 * le_weight((n - 1) as nat)
    }
}

proof fn lemma_le_len(v: nat, n: nat)
    ensures
        le_bytes(v, n).len() == n,
    decreases n,
{
    if n > 0 {
        lemma_le_len(v / 0x100, (n - 1) as nat);
    }
}

proof fn lemma_le_digits(v: nat, n: nat, rest: Seq<u8>)
    ensures
        le_value(le_bytes(v, n) + rest, n) + le_weight(n) * le_tail(v, n) == v,
    decreases n,
{
    if n == 0 {
        assert(le_weight(0) == 1);
        assert(le_tail(v, 0) == v);
        assert(le_value(le_bytes(v, 0) + rest, 0) == 0);
    } else {
        let whole = le_bytes(v, n) + rest;
        let tail = le_bytes(v / 0x100, (n - 1) as nat);
        assert(whole[0] == (v % 0x100) as u8);
        assert(whole.skip(1) =~= tail + rest);
        lemma_le_digits(v / 0x100, (n - 1) as nat, rest);
        let a = le_value(tail + rest, (n - 1) as nat);
        let w = le_weight((n - 1) as nat);
        let t = le_tail(v / 0x100, (n - 1) as nat);
        assert(a + w * t == v / 0x100);
        assert(0x100 * (a + w * t) == 0x100 * a + (0x100 * w) * t) by (nonlinear_arith);
        assert(le_weight(n) == 0x100 * w);
        assert(le_tail(v, n) == t);
        assert(le_value(whole, n) == v % 0x100 + 0x100 * a);
        assert(le_weight(n) * le_tail(v, n) == (0x100 * w) * t);
        assert(v == 0x100 * (v / 0x100) + v % 0x100);
    }
}

impl CompactRoundTrip for Demo {
    /// The text has no more bytes than its length field of eight bytes can
    /// say.  No text in memory has.
    open spec fn fits(v: DemoView) -> bool {
        encode_utf8(v.field1).len() <= u64::MAX
    }

    proof fn lemma_expand_compact(v: DemoView, rest: Seq<u8>) {
        let text = encode_utf8(v.field1);
        let number = le_bytes(unsigned(v.field2), 4);
        let head = le_bytes(text.len(), 8);
        let b = demo_compact(v) + rest;
        lemma_le_round_trip(text.len(), 8, text + number + rest);
        lemma_le_round_trip(unsigned(v.field2), 4, rest);
        assert(b =~= head + (text + number + rest));
        assert(b.subrange(8, 8 + text.len() as int) =~= text);
        assert(b.skip(8 + text.len() as int) =~= number + rest);
        vstd::utf8::encode_utf8_valid_utf8(v.field1);
        vstd::utf8::encode_utf8_decode_utf8(v.field1);
        assert(signed(unsigned(v.field2)) == v.field2);
    }
}

/// Round trip of the compact codec: what it serializes of a value that it
/// accepts, it deserializes to that value, whatever follows the bytes.
pub proof fn lemma_compact_round_trip<T: CompactRoundTrip>(v: T::V, rest: Seq<u8>)
    requires
        BincodeCodec::<T>::accepts(v),
        T::fits(v),
    ensures
        BincodeCodec::<T>::decoding(BincodeCodec::<T>::encoding(v) + rest) == Some(v),
{
    T::lemma_expand_compact(v, rest);
}

} // verus!
