//! The field-tagged binary format of the schema'd messages.
//!
//! A message is a run of fields.  Each field starts with a key, a varint
//! that holds the field's tag and its wire type; a varint field carries one
//! more varint, a length-delimited field a length and that many bytes.
//! Varints are read and written by `prost`, and fields that a message does
//! not know are passed over by it; what this module assumes of `prost` is
//! stated on the functions that call it.  The rest is proved.

use crate::error::VirusError;
use vstd::prelude::*;
use vstd::slice::slice_subrange;
use vstd::slice::slice_to_vec;
use vstd::utf8::decode_utf8;
use vstd::utf8::encode_utf8;
use vstd::utf8::valid_utf8;

verus! {

/// The wire type of a field that carries one varint.
pub const WIRE_VARINT: u8 = 0;

/// The wire type of a field that carries a length and that many bytes.
pub const WIRE_LENGTH_DELIMITED: u8 = 2;

/// The wire type of a field that carries eight bytes.
pub const WIRE_FIXED64: u8 = 1;

/// The wire type that opens a group: fields up to the key that closes it.
pub const WIRE_START_GROUP: u8 = 3;

/// The wire type that closes a group.
pub const WIRE_END_GROUP: u8 = 4;

/// The wire type of a field that carries four bytes.
pub const WIRE_FIXED32: u8 = 5;

/// The largest wire type there is.
pub const WIRE_MAX: u8 = 5;

/// The largest tag a field can have.
pub const MAX_TAG: u32 = 0x1FFF_FFFF;

// ---------------------------------------------------------------------------
// The format
// ---------------------------------------------------------------------------

/// The varint of `v`: its base-128 digits, least significant first, each but
/// the last with the high bit set.
pub open spec fn varint(v: nat) -> Seq<u8>
    decreases v,
{
    if v < 0x80 {
        seq![v as u8]
    } else {
        seq![(v % 0x80 + 0x80) as u8] + varint(v / 0x80)
    }
}

/// The number of bytes up to and including the first one without the high
/// bit, if there is one among the first `limit` bytes of `b`.
pub open spec fn varint_width(b: Seq<u8>, limit: nat) -> Option<nat>
    decreases limit,
{
    if limit == 0 || b.len() == 0 {
        None
    } else if b[0] < 0x80 {
        Some(1)
    } else {
        match varint_width(b.skip(1), (limit - 1) as nat) {
            Some(n) => Some(n + 1),
            None => None,
        }
    }
}

/// The number whose base-128 digits, least significant first, are the low
/// seven bits of the first `n` bytes of `b`.
pub open spec fn varint_digits(b: Seq<u8>, n: nat) -> nat
    decreases n,
{
    if n == 0 {
        0
    } else {
        (b[0] % 0x80) as nat + 0x80 * varint_digits(b.skip(1), (n - 1) as nat)
    }
}

/// The varint at the front of `b`: its value and its width.  There is none
/// if no byte among the first ten lacks the high bit, or if the tenth byte
/// would carry the value past 64 bits.
pub open spec fn read_varint(b: Seq<u8>) -> Option<(u64, nat)> {
    match varint_width(b, 10) {
        None => None,
        Some(n) => if n == 10 && b[9] >= 2 {
            None
        } else {
            Some((varint_digits(b, n) as u64, n))
        },
    }
}

/// The key of a field.
pub open spec fn key(tag: u32, wire_type: u8) -> Seq<u8> {
    varint((tag * 8 + wire_type) as nat)
}

/// The key at the front of `b`: tag, wire type and width.  A key is a varint
/// that fits 32 bits, whose low three bits are a wire type and whose other
/// bits are a tag that is not zero.
pub open spec fn read_key(b: Seq<u8>) -> Option<(u32, u8, nat)> {
    match read_varint(b) {
        None => None,
        Some((k, n)) => if k > u32::MAX || k % 8 > WIRE_MAX || k / 8 == 0 {
            None
        } else {
            Some(((k / 8) as u32, (k % 8) as u8, n))
        },
    }
}

/// A block: the length of `content` as a varint, then `content`.
pub open spec fn block(content: Seq<u8>) -> Seq<u8> {
    varint(content.len()) + content
}

/// The block at the front of `b`: its content and its width.  There is none
/// if the length is no varint or exceeds what follows it.
pub open spec fn read_block(b: Seq<u8>) -> Option<(Seq<u8>, nat)> {
    match read_varint(b) {
        None => None,
        Some((len, n)) => if len > b.len() - n {
            None
        } else {
            Some((b.subrange(n as int, n + len), (n + len) as nat))
        },
    }
}

/// The string in the block at the front of `b`, and the block's width.
/// There is none if there is no block or its content is not UTF-8.
pub open spec fn read_string(b: Seq<u8>) -> Option<(Seq<char>, nat)> {
    match read_block(b) {
        None => None,
        Some((content, n)) => if valid_utf8(content) {
            Some((decode_utf8(content), n))
        } else {
            None
        },
    }
}

/// A signed 32-bit number as the 64-bit pattern of its sign extension.
pub open spec fn int32_bits(x: i32) -> u64 {
    if x >= 0 {
        x as u64
    } else {
        (0x1_0000_0000_0000_0000 + x) as u64
    }
}

/// The signed number in the low 32 bits of `v`.
pub open spec fn bits_int32(v: u64) -> i32 {
    if v % 0x1_0000_0000 < 0x8000_0000 {
        (v % 0x1_0000_0000) as i32
    } else {
        (v % 0x1_0000_0000 - 0x1_0000_0000) as i32
    }
}

/// A field that carries the number `v`.
pub open spec fn varint_field(tag: u32, v: u64) -> Seq<u8> {
    key(tag, WIRE_VARINT) + varint(v as nat)
}

/// A field that carries the bytes `content`.
pub open spec fn block_field(tag: u32, content: Seq<u8>) -> Seq<u8> {
    key(tag, WIRE_LENGTH_DELIMITED) + block(content)
}

/// A signed 32-bit field; absent when the number is zero.
pub open spec fn int32_field(tag: u32, x: i32) -> Seq<u8> {
    if x == 0 {
        Seq::<u8>::empty()
    } else {
        varint_field(tag, int32_bits(x))
    }
}

/// An unsigned 64-bit field; absent when the number is zero.
pub open spec fn uint64_field(tag: u32, x: u64) -> Seq<u8> {
    if x == 0 {
        Seq::<u8>::empty()
    } else {
        varint_field(tag, x)
    }
}

/// A string field; absent when the string is empty.
pub open spec fn string_field(tag: u32, s: Seq<char>) -> Seq<u8> {
    if s.len() == 0 {
        Seq::<u8>::empty()
    } else {
        block_field(tag, encode_utf8(s))
    }
}

// ---------------------------------------------------------------------------
// What is assumed of `prost` and of `String::from_utf8`
// ---------------------------------------------------------------------------

#[verifier::external_type_specification]
#[verifier::external_body]
pub struct ExDecodeError(prost::DecodeError);

/// `prost::encoding::encode_varint` on a `Vec<u8>`: appends the varint of
/// `value`.
#[verifier::external_body]
pub(crate) fn put_varint(value: u64, buf: &mut Vec<u8>)
    ensures
        final(buf)@ == old(buf)@ + varint(value as nat),
{
    prost::encoding::encode_varint(value, buf)
}

/// `prost::encoding::decode_varint` on a slice: the value of the varint at
/// the front and the slice behind it, or an error where `read_varint` finds
/// none.
#[verifier::external_body]
pub(crate) fn take_varint<'a>(src: &'a [u8]) -> (r: Result<(u64, &'a [u8]), prost::DecodeError>)
    ensures
        match read_varint(src@) {
            Some((v, n)) => r matches Ok((value, rest)) && value == v && n <= src@.len()
                && rest@ == src@.skip(n as int),
            None => r is Err,
        },
{
    let mut rest: &[u8] = src;
    let value = prost::encoding::decode_varint(&mut rest)?;
    Ok((value, rest))
}

/// `prost::encoding::encoded_len_varint`: the width of the varint of `value`.
#[verifier::external_body]
pub(crate) fn varint_len(value: u64) -> (n: usize)
    ensures
        n == varint(value as nat).len(),
{
    prost::encoding::encoded_len_varint(value)
}

/// The number of bytes of the group with the tag `tag` at the front of
/// `src`, the key that closes it included, as `prost::encoding::skip_field`
/// finds it when called at the outermost nesting level with the key that
/// opens the group read already; `None` where it reports an error.
pub uninterp spec fn skipped_group(tag: u32, src: Seq<u8>) -> Option<nat>;

/// The number of bytes of a field body that is passed over unread: a varint,
/// four or eight bytes, a block or a group, by the wire type.  `None` where
/// the body is malformed or ends too early, and for a wire type that opens
/// no body.
pub open spec fn skipped(wire_type: u8, tag: u32, src: Seq<u8>) -> Option<nat> {
    if wire_type == WIRE_VARINT {
        match read_varint(src) {
            Some((_, n)) => Some(n),
            None => None,
        }
    } else if wire_type == WIRE_FIXED64 {
        if src.len() >= 8 {
            Some(8)
        } else {
            None
        }
    } else if wire_type == WIRE_LENGTH_DELIMITED {
        match read_block(src) {
            Some((_, n)) => Some(n),
            None => None,
        }
    } else if wire_type == WIRE_START_GROUP {
        skipped_group(tag, src)
    } else if wire_type == WIRE_FIXED32 {
        if src.len() >= 4 {
            Some(4)
        } else {
            None
        }
    } else {
        None
    }
}

/// `prost::encoding::skip_field` on a slice, at the outermost nesting level:
/// the slice behind the field, or the error.  A varint, a block and a body
/// of four or eight bytes are passed over as `skipped` says, a group as far
/// as `skipped_group` names; a key that closes a group and a wire type
/// above five are errors.  What is passed over lies within `src`.
#[verifier::external_body]
pub(crate) fn skip_field<'a>(wire_type: u8, tag: u32, src: &'a [u8]) -> (r: Result<
    &'a [u8],
    prost::DecodeError,
>)
    ensures
        match (if wire_type == WIRE_START_GROUP {
            skipped_group(tag, src@)
        } else {
            skipped(wire_type, tag, src@)
        }) {
            Some(n) => r matches Ok(rest) && n <= src@.len() && rest@ == src@.skip(n as int),
            None => r is Err,
        },
{
    let mut rest: &[u8] = src;
    let kind = prost::encoding::WireType::try_from(u64::from(wire_type))?;
    prost::encoding::skip_field(kind, tag, &mut rest, prost::encoding::DecodeContext::default())?;
    Ok(rest)
}

/// `String::from_utf8`: the string whose UTF-8 encoding is `bytes`, or
/// `None` where `bytes` is not UTF-8.
#[verifier::external_body]
pub(crate) fn string_from_utf8(bytes: Vec<u8>) -> (r: Option<String>)
    ensures
        r is Some <==> valid_utf8(bytes@),
        r matches Some(s) ==> s@ == decode_utf8(bytes@),
{
    String::from_utf8(bytes).ok()
}

// ---------------------------------------------------------------------------
// Reading
// ---------------------------------------------------------------------------

/// Reads the key at the front of `src`.
pub fn take_key<'a>(src: &'a [u8]) -> (r: Result<(u32, u8, &'a [u8]), VirusError>)
    ensures
        match read_key(src@) {
            Some((tag, wire_type, n)) => r matches Ok((t, w, rest)) && t == tag && w == wire_type
                && 1 <= n <= src@.len() && rest@ == src@.skip(n as int),
            None => r == Err::<(u32, u8, &[u8]), VirusError>(VirusError::Decoding),
        },
{
    proof {
        lemma_varint_width_positive(src@, 10);
    }
    let (k, rest) = match take_varint(src) {
        Ok(pair) => pair,
        Err(_) => {
            return Err(VirusError::Decoding);
        },
    };
    if k > 0xFFFF_FFFF || k % 8 > 5 || k / 8 == 0 {
        return Err(VirusError::Decoding);
    }
    let tag: u32 = (k / 8) as u32;
    let wire_type: u8 = (k % 8) as u8;
    Ok((tag, wire_type, rest))
}

/// Reads the block at the front of `src`: its content and the slice behind
/// it.
pub fn take_block<'a>(src: &'a [u8]) -> (r: Result<(&'a [u8], &'a [u8]), VirusError>)
    ensures
        match read_block(src@) {
            Some((content, n)) => r matches Ok((c, rest)) && c@ == content && n <= src@.len()
                && rest@ == src@.skip(n as int),
            None => r == Err::<(&[u8], &[u8]), VirusError>(VirusError::Decoding),
        },
{
    let (len, rest) = match take_varint(src) {
        Ok(pair) => pair,
        Err(_) => {
            return Err(VirusError::Decoding);
        },
    };
    if len > rest.len() as u64 {
        return Err(VirusError::Decoding);
    }
    let n: usize = len as usize;
    let content = slice_subrange(rest, 0, n);
    let behind = slice_subrange(rest, n, rest.len());
    proof {
        let w: nat = match read_varint(src@) {
            Some(found) => found.1,
            None => 0,
        };
        assert(content@ == src@.subrange(w as int, w + len));
        assert(behind@ == src@.skip((w + len) as int));
    }
    Ok((content, behind))
}

/// Reads the string in the block at the front of `src`.
pub fn take_string<'a>(src: &'a [u8]) -> (r: Result<(String, &'a [u8]), VirusError>)
    ensures
        match read_string(src@) {
            Some((s, n)) => r matches Ok((text, rest)) && text@ == s && n <= src@.len() && rest@
                == src@.skip(n as int),
            None => r == Err::<(String, &[u8]), VirusError>(VirusError::Decoding),
        },
{
    let (content, rest) = match take_block(src) {
        Ok(pair) => pair,
        Err(e) => {
            return Err(e);
        },
    };
    match string_from_utf8(slice_to_vec(content)) {
        Some(text) => Ok((text, rest)),
        None => Err(VirusError::Decoding),
    }
}

/// The signed number in the low 32 bits of `v`.
pub fn low_int32(v: u64) -> (x: i32)
    ensures
        x == bits_int32(v),
{
    let low: u64 = v % 0x1_0000_0000;
    if low < 0x8000_0000 {
        low as i32
    } else {
        (low as i64 - 0x1_0000_0000) as i32
    }
}

/// The 64-bit pattern of the sign extension of `x`.
pub fn sign_extend(x: i32) -> (v: u64)
    ensures
        v == int32_bits(x),
{
    if x >= 0 {
        x as u64
    } else {
        0xFFFF_FFFF_FFFF_FFFF - ((-(x as i64) - 1) as u64)
    }
}

// ---------------------------------------------------------------------------
// Writing
// ---------------------------------------------------------------------------

/// Appends the key of a field.
pub fn put_key(tag: u32, wire_type: u8, buf: &mut Vec<u8>)
    ensures
        final(buf)@ == old(buf)@ + key(tag, wire_type),
{
    let k: u64 = tag as u64 * 8 + wire_type as u64;
    put_varint(k, buf);
}

/// Appends a signed 32-bit field, unless the number is zero.
pub fn put_int32_field(tag: u32, x: i32, buf: &mut Vec<u8>)
    requires
        tag <= MAX_TAG,
    ensures
        final(buf)@ == old(buf)@ + int32_field(tag, x),
{
    if x != 0 {
        put_key(tag, WIRE_VARINT, buf);
        put_varint(sign_extend(x), buf);
        assert(buf@ == old(buf)@ + int32_field(tag, x));
    } else {
        assert(buf@ == old(buf)@ + int32_field(tag, x));
    }
}

/// Appends an unsigned 64-bit field, unless the number is zero.
pub fn put_uint64_field(tag: u32, x: u64, buf: &mut Vec<u8>)
    requires
        tag <= MAX_TAG,
    ensures
        final(buf)@ == old(buf)@ + uint64_field(tag, x),
{
    if x != 0 {
        put_key(tag, WIRE_VARINT, buf);
        put_varint(x, buf);
        assert(buf@ == old(buf)@ + uint64_field(tag, x));
    } else {
        assert(buf@ == old(buf)@ + uint64_field(tag, x));
    }
}

/// Appends a length-delimited field that carries `content`.
pub fn put_block_field(tag: u32, content: &[u8], buf: &mut Vec<u8>)
    requires
        tag <= MAX_TAG,
    ensures
        final(buf)@ == old(buf)@ + block_field(tag, content@),
{
    put_key(tag, WIRE_LENGTH_DELIMITED, buf);
    put_varint(content.len() as u64, buf);
    buf.extend_from_slice(content);
    assert(buf@ == old(buf)@ + block_field(tag, content@));
}

/// Appends a string field, unless the string is empty.
pub fn put_string_field(tag: u32, s: &String, buf: &mut Vec<u8>)
    requires
        tag <= MAX_TAG,
    ensures
        final(buf)@ == old(buf)@ + string_field(tag, s@),
{
    let bytes = s.as_str().as_bytes();
    proof {
        lemma_utf8_empty(s@);
    }
    if bytes.len() != 0 {
        put_block_field(tag, bytes, buf);
    } else {
        assert(buf@ == old(buf)@ + string_field(tag, s@));
    }
}

// ---------------------------------------------------------------------------
// Field bodies
// ---------------------------------------------------------------------------

/// The body of a signed 32-bit field at the front of `src`: the number and
/// the body's width.  A wire type other than varint is an error.
pub open spec fn int32_body(wire_type: u8, src: Seq<u8>) -> Option<(i32, nat)> {
    if wire_type != WIRE_VARINT {
        None
    } else {
        match read_varint(src) {
            Some((v, n)) => Some((bits_int32(v), n)),
            None => None,
        }
    }
}

/// The body of an unsigned 64-bit field at the front of `src`.
pub open spec fn uint64_body(wire_type: u8, src: Seq<u8>) -> Option<(u64, nat)> {
    if wire_type != WIRE_VARINT {
        None
    } else {
        read_varint(src)
    }
}

/// The body of a string field at the front of `src`.  A wire type other than
/// length-delimited is an error.
pub open spec fn string_body(wire_type: u8, src: Seq<u8>) -> Option<(Seq<char>, nat)> {
    if wire_type != WIRE_LENGTH_DELIMITED {
        None
    } else {
        read_string(src)
    }
}

/// Reads the body of a signed 32-bit field.
pub fn merge_int32<'a>(wire_type: u8, src: &'a [u8]) -> (r: Result<(i32, &'a [u8]), VirusError>)
    ensures
        match int32_body(wire_type, src@) {
            Some((x, n)) => r matches Ok((value, rest)) && value == x && n <= src@.len() && rest@
                == src@.skip(n as int),
            None => r == Err::<(i32, &[u8]), VirusError>(VirusError::Decoding),
        },
{
    if wire_type != WIRE_VARINT {
        return Err(VirusError::Decoding);
    }
    match take_varint(src) {
        Ok((v, rest)) => Ok((low_int32(v), rest)),
        Err(_) => Err(VirusError::Decoding),
    }
}

/// Reads the body of an unsigned 64-bit field.
pub fn merge_uint64<'a>(wire_type: u8, src: &'a [u8]) -> (r: Result<(u64, &'a [u8]), VirusError>)
    ensures
        match uint64_body(wire_type, src@) {
            Some((x, n)) => r matches Ok((value, rest)) && value == x && n <= src@.len() && rest@
                == src@.skip(n as int),
            None => r == Err::<(u64, &[u8]), VirusError>(VirusError::Decoding),
        },
{
    if wire_type != WIRE_VARINT {
        return Err(VirusError::Decoding);
    }
    match take_varint(src) {
        Ok((v, rest)) => Ok((v, rest)),
        Err(_) => Err(VirusError::Decoding),
    }
}

/// Reads the body of a string field.
pub fn merge_string<'a>(wire_type: u8, src: &'a [u8]) -> (r: Result<(String, &'a [u8]), VirusError>)
    ensures
        match string_body(wire_type, src@) {
            Some((s, n)) => r matches Ok((text, rest)) && text@ == s && n <= src@.len() && rest@
                == src@.skip(n as int),
            None => r == Err::<(String, &[u8]), VirusError>(VirusError::Decoding),
        },
{
    if wire_type != WIRE_LENGTH_DELIMITED {
        return Err(VirusError::Decoding);
    }
    take_string(src)
}

/// Passes over the body of a field whose tag the message does not know.
pub fn merge_unknown<'a>(wire_type: u8, tag: u32, src: &'a [u8]) -> (r: Result<
    &'a [u8],
    VirusError,
>)
    ensures
        match skipped(wire_type, tag, src@) {
            Some(n) => r matches Ok(rest) && n <= src@.len() && rest@ == src@.skip(n as int),
            None => r == Err::<&[u8], VirusError>(VirusError::Decoding),
        },
{
    match skip_field(wire_type, tag, src) {
        Ok(rest) => Ok(rest),
        Err(_) => Err(VirusError::Decoding),
    }
}

/// A group with the tag `tag` and the body `body`, the key that closes it
/// included, as it stands behind the key that opens a group around it.
pub open spec fn enclosed(tag: u32, body: Seq<u8>) -> Seq<u8> {
    key(tag, WIRE_START_GROUP) + body + key(tag, WIRE_END_GROUP)
}

/// The number of bytes of a field body that is passed over unread inside a
/// nested message, one level below the outermost.  Groups may nest to a
/// limit; a group that stands one level down may hold one level less.  It
/// is passed over here exactly if it is passed over at the outermost level
/// with one more group around it.
pub open spec fn skipped_nested(wire_type: u8, tag: u32, src: Seq<u8>) -> Option<nat> {
    match skipped(wire_type, tag, src) {
        None => None,
        Some(n) => if wire_type == WIRE_START_GROUP && skipped(
            WIRE_START_GROUP,
            tag,
            enclosed(tag, src.take(n as int)),
        ) is None {
            None
        } else {
            Some(n)
        },
    }
}

/// Passes over the body of a field that a nested message does not know.
pub fn merge_unknown_nested<'a>(wire_type: u8, tag: u32, src: &'a [u8]) -> (r: Result<
    &'a [u8],
    VirusError,
>)
    ensures
        match skipped_nested(wire_type, tag, src@) {
            Some(n) => r matches Ok(rest) && n <= src@.len() && rest@ == src@.skip(n as int),
            None => r == Err::<&[u8], VirusError>(VirusError::Decoding),
        },
{
    let rest = match merge_unknown(wire_type, tag, src) {
        Ok(rest) => rest,
        Err(e) => {
            return Err(e);
        },
    };
    if wire_type == WIRE_START_GROUP {
        // The same group once more, with a group around it: what holds one
        // level too many is found out there.
        let n: usize = src.len() - rest.len();
        let mut around: Vec<u8> = Vec::new();
        put_key(tag, WIRE_START_GROUP, &mut around);
        around.extend_from_slice(slice_subrange(src, 0, n));
        put_key(tag, WIRE_END_GROUP, &mut around);
        assert(around@ =~= enclosed(tag, src@.take(n as int)));
        match merge_unknown(WIRE_START_GROUP, tag, around.as_slice()) {
            Ok(_) => Ok(rest),
            Err(e) => Err(e),
        }
    } else {
        Ok(rest)
    }
}

// ---------------------------------------------------------------------------
// Messages
// ---------------------------------------------------------------------------

/// A message of the format: a value with fields that are known by their
/// tags.  `wire` says how a message is written and `merged` how one field
/// read from the wire changes a message.
pub trait ProtoMessage: View + Sized {
    /// The message with every field at its default.
    spec fn blank() -> Self::V;

    /// The fields of a message, in the order and form in which they are
    /// written.
    spec fn wire(v: Self::V) -> Seq<u8>;

    /// The message `acc` after the field with the given tag and wire type,
    /// whose body is at the front of `src`, has been read into it, and the
    /// width of that body; `None` where the body is malformed.
    spec fn merged(acc: Self::V, tag: u32, wire_type: u8, src: Seq<u8>) -> Option<(Self::V, nat)>;

    /// The messages that reading gives back as they were written.
    spec fn canonical(v: Self::V) -> bool;

    /// Makes the message with every field at its default.
    fn blank_message() -> (m: Self)
        ensures
            m@ == Self::blank(),
    ;

    /// Appends the fields of the message to `buf`.
    fn encode_raw(&self, buf: &mut Vec<u8>)
        ensures
            final(buf)@ == old(buf)@ + Self::wire(self@),
    ;

    /// Reads the body of one field from the front of `src` into the message
    /// and returns the slice behind it.
    fn merge_field<'a>(&mut self, tag: u32, wire_type: u8, src: &'a [u8]) -> (r: Result<
        &'a [u8],
        VirusError,
    >)
        ensures
            match Self::merged(old(self)@, tag, wire_type, src@) {
                Some((v, n)) => r matches Ok(rest) && final(self)@ == v && n <= src@.len()
                    && rest@ == src@.skip(n as int),
                None => r == Err::<&[u8], VirusError>(VirusError::Decoding),
            },
    ;

    /// The number of bytes that `encode_raw` appends.
    fn encoded_len(&self) -> (n: usize)
        requires
            Self::wire(self@).len() <= usize::MAX,
        ensures
            n == Self::wire(self@).len(),
    ;
}

/// The message that results from reading the fields in `b`, one after the
/// other, into `acc`; `None` where a key or a body is malformed.
pub open spec fn parse_from<T: ProtoMessage>(acc: T::V, b: Seq<u8>) -> Option<T::V>
    decreases b.len(),
{
    if b.len() == 0 {
        Some(acc)
    } else {
        match read_key(b) {
            None => None,
            Some((tag, wire_type, n)) => if n == 0 || n > b.len() {
                None
            } else {
                match T::merged(acc, tag, wire_type, b.skip(n as int)) {
                    None => None,
                    Some((next, m)) => if m > b.len() - n {
                        None
                    } else {
                        parse_from::<T>(next, b.skip((n + m) as int))
                    },
                }
            },
        }
    }
}

/// The message that `b` encodes; `None` where `b` is malformed.
pub open spec fn parse<T: ProtoMessage>(b: Seq<u8>) -> Option<T::V> {
    parse_from::<T>(T::blank(), b)
}

/// The law that a message type has to keep: reading what was written of a
/// canonical message gives the message.
pub trait RoundTrip: ProtoMessage {
    proof fn lemma_round_trip(v: Self::V)
        requires
            Self::canonical(v),
        ensures
            parse::<Self>(Self::wire(v)) == Some(v),
    ;
}

/// Encodes a message into a fresh vector.
pub fn encode_to_vec<T: ProtoMessage>(message: &T) -> (bytes: Vec<u8>)
    ensures
        bytes@ == T::wire(message@),
{
    let mut bytes: Vec<u8> = Vec::new();
    message.encode_raw(&mut bytes);
    assert(bytes@ == T::wire(message@));
    bytes
}

/// Decodes the message that `src` holds.  All of `src` is read: fields that
/// come twice leave their last value, fields with unknown tags are passed
/// over.
pub fn decode<T: ProtoMessage>(src: &[u8]) -> (r: Result<T, VirusError>)
    ensures
        match parse::<T>(src@) {
            Some(v) => r matches Ok(m) && m@ == v,
            None => r == Err::<T, VirusError>(VirusError::Decoding),
        },
{
    let mut message = T::blank_message();
    let mut rest: &[u8] = src;
    while rest.len() > 0
        invariant
            parse_from::<T>(message@, rest@) == parse::<T>(src@),
        decreases rest@.len(),
    {
        let (tag, wire_type, body) = match take_key(rest) {
            Ok(found) => found,
            Err(e) => {
                return Err(e);
            },
        };
        let behind = match message.merge_field(tag, wire_type, body) {
            Ok(behind) => behind,
            Err(e) => {
                return Err(e);
            },
        };
        proof {
            let n = read_key(rest@).unwrap().2;
            let m = rest@.len() - n - behind@.len();
            assert(rest@.skip(n as int).skip(m) == rest@.skip(n + m));
        }
        rest = behind;
    }
    Ok(message)
}

// ---------------------------------------------------------------------------
// Facts about the format
// ---------------------------------------------------------------------------

/// A varint that is found is at least one byte wide and lies within the
/// bytes searched.
pub proof fn lemma_varint_width_positive(b: Seq<u8>, limit: nat)
    ensures
        varint_width(b, limit) matches Some(n) ==> 1 <= n <= limit && n <= b.len() && b[n - 1]
            < 0x80,
    decreases limit,
{
    if limit == 0 || b.len() == 0 {
    } else if b[0] < 0x80 {
    } else {
        lemma_varint_width_positive(b.skip(1), (limit - 1) as nat);
    }
}

/// Only the empty string has an empty encoding.
pub proof fn lemma_utf8_empty(s: Seq<char>)
    ensures
        encode_utf8(s).len() == 0 <==> s.len() == 0,
{
    vstd::utf8::encode_utf8_decode_utf8(s);
    if encode_utf8(s).len() == 0 && s.len() != 0 {
        assert(encode_utf8(s) =~= Seq::<u8>::empty());
        assert(decode_utf8(Seq::<u8>::empty()) =~= Seq::<char>::empty());
    }
}

/// The bound below which a number has a varint of at most `10 - i` bytes,
/// whose last byte, where there are that many, is 0 or 1.
pub open spec fn varint_bound(i: nat) -> nat
    decreases 9 - i,
{
    if i >= 9 {
        2
    } else {
        0x80 * varint_bound(i + 1)
    }
}

proof fn lemma_varint_shape(v: nat, i: nat)
    requires
        i <= 9,
        v < varint_bound(i),
    ensures
        1 <= varint(v).len() <= 10 - i,
        varint(v).len() == 10 - i ==> varint(v).last() < 2,
        forall|j: int| 0 <= j < varint(v).len() - 1 ==> #[trigger] varint(v)[j] >= 0x80,
        varint(v).last() < 0x80,
    decreases 9 - i,
{
    if v < 0x80 {
    } else {
        assert(i < 9);
        lemma_varint_shape(v / 0x80, i + 1);
        let tail = varint(v / 0x80);
        let whole = varint(v);
        assert(whole == seq![(v % 0x80 + 0x80) as u8] + tail);
        assert(whole.last() == tail.last());
        assert forall|j: int| 0 <= j < whole.len() - 1 implies #[trigger] whole[j] >= 0x80 by {
            if j > 0 {
                assert(whole[j] == tail[j - 1]);
            }
        }
    }
}

/// The varint of a 64-bit number has between one and ten bytes.
pub proof fn lemma_varint_len(v: u64)
    ensures
        1 <= varint(v as nat).len() <= 10,
{
    assert(varint_bound(0) == 0x1_0000_0000_0000_0000) by {
        reveal_with_fuel(varint_bound, 11);
    }
    lemma_varint_shape(v as nat, 0);
}

proof fn lemma_varint_scan(v: nat, rest: Seq<u8>, limit: nat)
    requires
        limit >= varint(v).len(),
    ensures
        varint_width(varint(v) + rest, limit) == Some(varint(v).len()),
        varint_digits(varint(v) + rest, varint(v).len()) == v,
    decreases v,
{
    let whole = varint(v) + rest;
    if v < 0x80 {
        assert(whole[0] == v as u8);
        assert(varint_digits(whole.skip(1), 0) == 0);
    } else {
        let tail = varint(v / 0x80);
        assert(whole[0] == (v % 0x80 + 0x80) as u8);
        assert(whole.skip(1) =~= tail + rest);
        lemma_varint_scan(v / 0x80, rest, (limit - 1) as nat);
    }
}

/// Reading a written varint gives the number that was written, whatever
/// comes behind it.
pub proof fn lemma_read_varint(v: u64, rest: Seq<u8>)
    ensures
        read_varint(varint(v as nat) + rest) == Some((v, varint(v as nat).len())),
{
    assert(varint_bound(0) == 0x1_0000_0000_0000_0000) by {
        reveal_with_fuel(varint_bound, 11);
    }
    lemma_varint_shape(v as nat, 0);
    lemma_varint_scan(v as nat, rest, 10);
    let whole = varint(v as nat) + rest;
    if varint(v as nat).len() == 10 {
        assert(whole[9] == varint(v as nat).last());
    }
}

/// Reading a written key gives the tag and the wire type that were written.
pub proof fn lemma_read_key(tag: u32, wire_type: u8, rest: Seq<u8>)
    requires
        1 <= tag <= MAX_TAG,
        wire_type <= WIRE_MAX,
    ensures
        read_key(key(tag, wire_type) + rest) == Some((tag, wire_type, key(tag, wire_type).len())),
        1 <= key(tag, wire_type).len() <= 10,
{
    let k: u64 = (tag * 8 + wire_type) as u64;
    lemma_read_varint(k, rest);
    lemma_varint_len(k);
}

/// Reading a written block gives the content that was written.
pub proof fn lemma_read_block(content: Seq<u8>, rest: Seq<u8>)
    requires
        content.len() <= u64::MAX,
    ensures
        read_block(block(content) + rest) == Some((content, block(content).len())),
{
    let len: u64 = content.len() as u64;
    lemma_read_varint(len, content + rest);
    let whole = block(content) + rest;
    let n = varint(len as nat).len();
    assert(whole =~= varint(len as nat) + (content + rest));
    assert(whole.subrange(n as int, n + len) =~= content);
}

/// Reading a written string gives the string that was written.
pub proof fn lemma_read_string(s: Seq<char>, rest: Seq<u8>)
    requires
        encode_utf8(s).len() <= u64::MAX,
    ensures
        read_string(block(encode_utf8(s)) + rest) == Some((s, block(encode_utf8(s)).len())),
{
    lemma_read_block(encode_utf8(s), rest);
    vstd::utf8::encode_utf8_valid_utf8(s);
    vstd::utf8::encode_utf8_decode_utf8(s);
}

/// Sign extension keeps the number in its low 32 bits.
pub proof fn lemma_int32_bits(x: i32)
    ensures
        bits_int32(int32_bits(x)) == x,
        x != 0 ==> int32_bits(x) != 0,
{
}

/// One field read from the front of a run of fields: if the body `body` of
/// the field turns `acc` into `next`, reading the field and then `rest` is
/// reading `rest` into `next`.
pub proof fn lemma_parse_field<T: ProtoMessage>(
    acc: T::V,
    tag: u32,
    wire_type: u8,
    body: Seq<u8>,
    rest: Seq<u8>,
    next: T::V,
)
    requires
        1 <= tag <= MAX_TAG,
        wire_type <= WIRE_MAX,
        T::merged(acc, tag, wire_type, body + rest) == Some((next, body.len())),
    ensures
        parse_from::<T>(acc, key(tag, wire_type) + body + rest) == parse_from::<T>(next, rest),
{
    let k = key(tag, wire_type);
    let b = k + body + rest;
    lemma_read_key(tag, wire_type, body + rest);
    assert(b =~= k + (body + rest));
    assert(b.skip(k.len() as int) =~= body + rest);
    assert(b.skip((k.len() + body.len()) as int) =~= rest);
}

/// A signed 32-bit field read from the front of a run of fields.
pub proof fn lemma_parse_int32_field<T: ProtoMessage>(
    acc: T::V,
    tag: u32,
    x: i32,
    rest: Seq<u8>,
    next: T::V,
)
    requires
        1 <= tag <= MAX_TAG,
        x == 0 ==> next == acc,
        forall|src: Seq<u8>|
            int32_body(WIRE_VARINT, src) is Some && int32_body(WIRE_VARINT, src).unwrap().0 == x
                ==> #[trigger] T::merged(acc, tag, WIRE_VARINT, src) == Some(
                (next, int32_body(WIRE_VARINT, src).unwrap().1),
            ),
    ensures
        parse_from::<T>(acc, int32_field(tag, x) + rest) == parse_from::<T>(next, rest),
{
    if x == 0 {
        assert(int32_field(tag, x) + rest =~= rest);
    } else {
        let body = varint(int32_bits(x) as nat);
        lemma_read_varint(int32_bits(x), rest);
        lemma_int32_bits(x);
        assert(int32_body(WIRE_VARINT, body + rest) == Some((x, body.len())));
        lemma_parse_field::<T>(acc, tag, WIRE_VARINT, body, rest, next);
    }
}

/// An unsigned 64-bit field read from the front of a run of fields.
pub proof fn lemma_parse_uint64_field<T: ProtoMessage>(
    acc: T::V,
    tag: u32,
    x: u64,
    rest: Seq<u8>,
    next: T::V,
)
    requires
        1 <= tag <= MAX_TAG,
        x == 0 ==> next == acc,
        forall|src: Seq<u8>|
            uint64_body(WIRE_VARINT, src) is Some && uint64_body(WIRE_VARINT, src).unwrap().0 == x
                ==> #[trigger] T::merged(acc, tag, WIRE_VARINT, src) == Some(
                (next, uint64_body(WIRE_VARINT, src).unwrap().1),
            ),
    ensures
        parse_from::<T>(acc, uint64_field(tag, x) + rest) == parse_from::<T>(next, rest),
{
    if x == 0 {
        assert(uint64_field(tag, x) + rest =~= rest);
    } else {
        let body = varint(x as nat);
        lemma_read_varint(x, rest);
        assert(uint64_body(WIRE_VARINT, body + rest) == Some((x, body.len())));
        lemma_parse_field::<T>(acc, tag, WIRE_VARINT, body, rest, next);
    }
}

/// A string field read from the front of a run of fields.
pub proof fn lemma_parse_string_field<T: ProtoMessage>(
    acc: T::V,
    tag: u32,
    s: Seq<char>,
    rest: Seq<u8>,
    next: T::V,
)
    requires
        1 <= tag <= MAX_TAG,
        encode_utf8(s).len() <= u64::MAX,
        s.len() == 0 ==> next == acc,
        forall|src: Seq<u8>|
            string_body(WIRE_LENGTH_DELIMITED, src) is Some && string_body(WIRE_LENGTH_DELIMITED, src).unwrap().0 == s
                ==> #[trigger] T::merged(acc, tag, WIRE_LENGTH_DELIMITED, src) == Some(
                (next, string_body(WIRE_LENGTH_DELIMITED, src).unwrap().1),
            ),
    ensures
        parse_from::<T>(acc, string_field(tag, s) + rest) == parse_from::<T>(next, rest),
{
    if s.len() == 0 {
        assert(string_field(tag, s) + rest =~= rest);
    } else {
        let body = block(encode_utf8(s));
        lemma_read_string(s, rest);
        assert(string_body(WIRE_LENGTH_DELIMITED, body + rest) == Some((s, body.len())));
        lemma_parse_field::<T>(acc, tag, WIRE_LENGTH_DELIMITED, body, rest, next);
    }
}

/// The message type `T` has no field with the tag `tag`: it passes such a
/// field over and stays as it is.
pub open spec fn passes_over<T: ProtoMessage>(tag: u32) -> bool {
    forall|acc: T::V, wire_type: u8, src: Seq<u8>| #[trigger]
        T::merged(acc, tag, wire_type, src) == match skipped(wire_type, tag, src) {
            Some(n) => Some((acc, n)),
            None => None,
        }
}

/// Forward compatibility: a field that a message does not know, be it a
/// number or a block, changes nothing of what is read.
pub proof fn lemma_unknown_field_changes_nothing<T: ProtoMessage>(
    acc: T::V,
    tag: u32,
    v: u64,
    content: Seq<u8>,
    rest: Seq<u8>,
)
    requires
        passes_over::<T>(tag),
        1 <= tag <= MAX_TAG,
        content.len() <= u64::MAX,
    ensures
        parse_from::<T>(acc, varint_field(tag, v) + rest) == parse_from::<T>(acc, rest),
        parse_from::<T>(acc, block_field(tag, content) + rest) == parse_from::<T>(acc, rest),
{
    let number = varint(v as nat);
    lemma_read_varint(v, rest);
    assert(T::merged(acc, tag, WIRE_VARINT, number + rest) == Some((acc, number.len())));
    lemma_parse_field::<T>(acc, tag, WIRE_VARINT, number, rest, acc);
    let body = block(content);
    lemma_read_block(content, rest);
    assert(T::merged(acc, tag, WIRE_LENGTH_DELIMITED, body + rest) == Some((acc, body.len())));
    lemma_parse_field::<T>(acc, tag, WIRE_LENGTH_DELIMITED, body, rest, acc);
}

// ---------------------------------------------------------------------------
// Widths
// ---------------------------------------------------------------------------

/// The width of the key of a field.
pub fn key_len(tag: u32, wire_type: u8) -> (n: usize)
    requires
        tag <= MAX_TAG,
        wire_type <= WIRE_MAX,
    ensures
        n == key(tag, wire_type).len(),
        1 <= n <= 10,
{
    let k: u32 = tag * 8 + wire_type as u32;
    proof {
        lemma_varint_len(k as u64);
    }
    varint_len(k as u64)
}

/// The width of a signed 32-bit field.
pub fn int32_field_len(tag: u32, x: i32) -> (n: usize)
    requires
        tag <= MAX_TAG,
    ensures
        n == int32_field(tag, x).len(),
        n <= 20,
{
    if x == 0 {
        0
    } else {
        let v: u64 = sign_extend(x);
        proof {
            lemma_varint_len(v);
        }
        key_len(tag, WIRE_VARINT) + varint_len(v)
    }
}

/// The width of an unsigned 64-bit field.
pub fn uint64_field_len(tag: u32, x: u64) -> (n: usize)
    requires
        tag <= MAX_TAG,
    ensures
        n == uint64_field(tag, x).len(),
        n <= 20,
{
    if x == 0 {
        0
    } else {
        proof {
            lemma_varint_len(x);
        }
        key_len(tag, WIRE_VARINT) + varint_len(x)
    }
}

/// The width of a length-delimited field with a content of `len` bytes, or
/// `None` where the width does not fit a `usize`.
pub fn block_field_len(tag: u32, len: usize) -> (r: Option<usize>)
    requires
        tag <= MAX_TAG,
    ensures
        forall|content: Seq<u8>| #[trigger]
            content.len() == len ==> match r {
                Some(n) => n == block_field(tag, content).len(),
                None => block_field(tag, content).len() > usize::MAX,
            },
{
    proof {
        lemma_varint_len(len as u64);
    }
    let head: usize = key_len(tag, WIRE_LENGTH_DELIMITED) + varint_len(len as u64);
    head.checked_add(len)
}

/// The width of a string field, or `None` where it does not fit a `usize`.
pub fn string_field_len(tag: u32, s: &String) -> (r: Option<usize>)
    requires
        tag <= MAX_TAG,
    ensures
        match r {
            Some(n) => n == string_field(tag, s@).len(),
            None => string_field(tag, s@).len() > usize::MAX,
        },
{
    let bytes = s.as_str().as_bytes();
    proof {
        lemma_utf8_empty(s@);
    }
    if bytes.len() == 0 {
        Some(0)
    } else {
        let r = block_field_len(tag, bytes.len());
        assert(bytes@.len() == bytes.len());
        r
    }
}

} // verus!
