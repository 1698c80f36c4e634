//! The messages of the protocol: the metadata that travels in every frame
//! and two small bodies.

use crate::error::VirusError;
use crate::keyed::distinct_keys;
use crate::keyed::key_index;
use crate::keyed::lemma_key_index;
use crate::keyed::pairs;
use crate::keyed::put;
use crate::keyed::put_entry;
use crate::protocol::wire::int32_body;
use crate::protocol::wire::int32_field;
use crate::protocol::wire::int32_field_len;
use crate::protocol::wire::block;
use crate::protocol::wire::key;
use crate::protocol::wire::lemma_parse_field;
use crate::protocol::wire::lemma_parse_int32_field;
use crate::protocol::wire::lemma_utf8_empty;
use crate::protocol::wire::WIRE_LENGTH_DELIMITED;
use crate::protocol::wire::lemma_parse_string_field;
use crate::protocol::wire::lemma_parse_uint64_field;
use crate::protocol::wire::block_field;
use crate::protocol::wire::block_field_len;
use crate::protocol::wire::decode;
use crate::protocol::wire::lemma_read_block;
use crate::protocol::wire::put_block_field;
use crate::protocol::wire::read_block;
use crate::protocol::wire::take_block;
use crate::protocol::wire::merge_int32;
use crate::protocol::wire::merge_string;
use crate::protocol::wire::merge_uint64;
use crate::protocol::wire::merge_unknown;
use crate::protocol::wire::merge_unknown_nested;
use crate::protocol::wire::parse;
use crate::protocol::wire::parse_from;
use crate::protocol::wire::passes_over;
use crate::protocol::wire::put_int32_field;
use crate::protocol::wire::put_string_field;
use crate::protocol::wire::put_uint64_field;
use crate::protocol::wire::skipped;
use crate::protocol::wire::skipped_nested;
use crate::protocol::wire::string_body;
use crate::protocol::wire::string_field;
use crate::protocol::wire::string_field_len;
use crate::protocol::wire::uint64_body;
use crate::protocol::wire::uint64_field;
use crate::protocol::wire::uint64_field_len;
use crate::protocol::wire::ProtoMessage;
use crate::protocol::wire::RoundTrip;
use vstd::prelude::*;
use vstd::utf8::encode_utf8;

verus! {

/// The body of an error response.
#[derive(Debug, Clone, PartialEq)]
pub struct Error {
    pub detail: String,
}

/// What an `Error` holds.
pub struct ErrorView {
    pub detail: Seq<char>,
}

impl View for Error {
    type V = ErrorView;

    open spec fn view(&self) -> ErrorView {
        ErrorView { detail: self.detail@ }
    }
}

impl Default for Error {
    /// The error without a detail.
    fn default() -> (m: Self)
        ensures
            m@ == Error::blank(),
    {
        Error { detail: String::new() }
    }
}

impl ProtoMessage for Error {
    open spec fn blank() -> ErrorView {
        ErrorView { detail: Seq::<char>::empty() }
    }

    open spec fn wire(v: ErrorView) -> Seq<u8> {
        string_field(1, v.detail)
    }

    open spec fn merged(acc: ErrorView, tag: u32, wire_type: u8, src: Seq<u8>) -> Option<
        (ErrorView, nat),
    > {
        if tag == 1 {
            match string_body(wire_type, src) {
                Some((s, n)) => Some((ErrorView { detail: s }, n)),
                None => None,
            }
        } else {
            match skipped(wire_type, tag, src) {
                Some(n) => Some((acc, n)),
                None => None,
            }
        }
    }

    open spec fn canonical(v: ErrorView) -> bool {
        encode_utf8(v.detail).len() <= u64::MAX
    }

    fn blank_message() -> (m: Self) {
        Error::default()
    }

    fn encode_raw(&self, buf: &mut Vec<u8>) {
        put_string_field(1, &self.detail, buf);
    }

    fn merge_field<'a>(&mut self, tag: u32, wire_type: u8, src: &'a [u8]) -> (r: Result<
        &'a [u8],
        VirusError,
    >) {
        if tag == 1 {
            match merge_string(wire_type, src) {
                Ok((text, rest)) => {
                    self.detail = text;
                    Ok(rest)
                },
                Err(e) => Err(e),
            }
        } else {
            merge_unknown(wire_type, tag, src)
        }
    }

    fn encoded_len(&self) -> (n: usize) {
        match string_field_len(1, &self.detail) {
            Some(n) => n,
            None => 0,
        }
    }
}

impl RoundTrip for Error {
    proof fn lemma_round_trip(v: ErrorView) {
        let none = Seq::<u8>::empty();
        assert(v.detail.len() == 0 ==> v.detail =~= Seq::<char>::empty());
        lemma_parse_string_field::<Error>(Error::blank(), 1, v.detail, none, v);
        assert(string_field(1, v.detail) + none =~= string_field(1, v.detail));
    }
}

/// A small body with a text and a number.
#[derive(Debug, Clone, PartialEq)]
pub struct Demo {
    pub field1: String,
    pub field2: i32,
}

/// What a `Demo` holds.
pub struct DemoView {
    pub field1: Seq<char>,
    pub field2: i32,
}

impl View for Demo {
    type V = DemoView;

    open spec fn view(&self) -> DemoView {
        DemoView { field1: self.field1@, field2: self.field2 }
    }
}

impl Default for Demo {
    /// The body with an empty text and the number zero.
    fn default() -> (m: Self)
        ensures
            m@ == Demo::blank(),
    {
        Demo { field1: String::new(), field2: 0 }
    }
}

impl ProtoMessage for Demo {
    open spec fn blank() -> DemoView {
        DemoView { field1: Seq::<char>::empty(), field2: 0 }
    }

    open spec fn wire(v: DemoView) -> Seq<u8> {
        string_field(1, v.field1) + int32_field(2, v.field2)
    }

    open spec fn merged(acc: DemoView, tag: u32, wire_type: u8, src: Seq<u8>) -> Option<
        (DemoView, nat),
    > {
        if tag == 1 {
            match string_body(wire_type, src) {
                Some((s, n)) => Some((DemoView { field1: s, field2: acc.field2 }, n)),
                None => None,
            }
        } else if tag == 2 {
            match int32_body(wire_type, src) {
                Some((x, n)) => Some((DemoView { field1: acc.field1, field2: x }, n)),
                None => None,
            }
        } else {
            match skipped(wire_type, tag, src) {
                Some(n) => Some((acc, n)),
                None => None,
            }
        }
    }

    open spec fn canonical(v: DemoView) -> bool {
        encode_utf8(v.field1).len() <= u64::MAX
    }

    fn blank_message() -> (m: Self) {
        Demo::default()
    }

    fn encode_raw(&self, buf: &mut Vec<u8>) {
        put_string_field(1, &self.field1, buf);
        put_int32_field(2, self.field2, buf);
        assert(buf@ =~= old(buf)@ + Self::wire(self@));
    }

    fn merge_field<'a>(&mut self, tag: u32, wire_type: u8, src: &'a [u8]) -> (r: Result<
        &'a [u8],
        VirusError,
    >) {
        if tag == 1 {
            match merge_string(wire_type, src) {
                Ok((text, rest)) => {
                    self.field1 = text;
                    Ok(rest)
                },
                Err(e) => Err(e),
            }
        } else if tag == 2 {
            match merge_int32(wire_type, src) {
                Ok((x, rest)) => {
                    self.field2 = x;
                    Ok(rest)
                },
                Err(e) => Err(e),
            }
        } else {
            merge_unknown(wire_type, tag, src)
        }
    }

    fn encoded_len(&self) -> (n: usize) {
        let tail: usize = int32_field_len(2, self.field2);
        match string_field_len(1, &self.field1) {
            Some(n) => n + tail,
            None => 0,
        }
    }
}

impl RoundTrip for Demo {
    proof fn lemma_round_trip(v: DemoView) {
        let none = Seq::<u8>::empty();
        let first = DemoView { field1: v.field1, field2: 0 };
        assert(v.field1.len() == 0 ==> v.field1 =~= Seq::<char>::empty());
        lemma_parse_string_field::<Demo>(Demo::blank(), 1, v.field1, int32_field(2, v.field2), first);
        lemma_parse_int32_field::<Demo>(first, 2, v.field2, none, v);
        assert(int32_field(2, v.field2) + none =~= int32_field(2, v.field2));
    }
}

/// One entry of a string-to-string map: the key is field 1, the value
/// field 2.  An entry is a message nested in the field that holds it, so
/// what it does not know is passed over one nesting level down.
#[derive(Debug, Clone, PartialEq)]
pub struct MapEntry {
    pub key: String,
    pub value: String,
}

impl View for MapEntry {
    type V = (Seq<char>, Seq<char>);

    open spec fn view(&self) -> (Seq<char>, Seq<char>) {
        (self.key@, self.value@)
    }
}

impl ProtoMessage for MapEntry {
    open spec fn blank() -> (Seq<char>, Seq<char>) {
        (Seq::<char>::empty(), Seq::<char>::empty())
    }

    open spec fn wire(v: (Seq<char>, Seq<char>)) -> Seq<u8> {
        string_field(1, v.0) + string_field(2, v.1)
    }

    open spec fn merged(acc: (Seq<char>, Seq<char>), tag: u32, wire_type: u8, src: Seq<u8>)
        -> Option<((Seq<char>, Seq<char>), nat)> {
        if tag == 1 {
            match string_body(wire_type, src) {
                Some((s, n)) => Some(((s, acc.1), n)),
                None => None,
            }
        } else if tag == 2 {
            match string_body(wire_type, src) {
                Some((s, n)) => Some(((acc.0, s), n)),
                None => None,
            }
        } else {
            match skipped_nested(wire_type, tag, src) {
                Some(n) => Some((acc, n)),
                None => None,
            }
        }
    }

    open spec fn canonical(v: (Seq<char>, Seq<char>)) -> bool {
        encode_utf8(v.0).len() <= u64::MAX && encode_utf8(v.1).len() <= u64::MAX
    }

    fn blank_message() -> (m: Self) {
        MapEntry { key: String::new(), value: String::new() }
    }

    fn encode_raw(&self, buf: &mut Vec<u8>) {
        put_string_field(1, &self.key, buf);
        put_string_field(2, &self.value, buf);
        assert(buf@ =~= old(buf)@ + Self::wire(self@));
    }

    fn merge_field<'a>(&mut self, tag: u32, wire_type: u8, src: &'a [u8]) -> (r: Result<
        &'a [u8],
        VirusError,
    >) {
        if tag == 1 {
            match merge_string(wire_type, src) {
                Ok((text, rest)) => {
                    self.key = text;
                    Ok(rest)
                },
                Err(e) => Err(e),
            }
        } else if tag == 2 {
            match merge_string(wire_type, src) {
                Ok((text, rest)) => {
                    self.value = text;
                    Ok(rest)
                },
                Err(e) => Err(e),
            }
        } else {
            merge_unknown_nested(wire_type, tag, src)
        }
    }

    fn encoded_len(&self) -> (n: usize) {
        let head = string_field_len(1, &self.key);
        let tail = string_field_len(2, &self.value);
        match (head, tail) {
            (Some(a), Some(b)) => a + b,
            _ => 0,
        }
    }
}

impl RoundTrip for MapEntry {
    proof fn lemma_round_trip(v: (Seq<char>, Seq<char>)) {
        let none = Seq::<u8>::empty();
        let first = (v.0, Seq::<char>::empty());
        assert(v.0.len() == 0 ==> v.0 =~= Seq::<char>::empty());
        assert(v.1.len() == 0 ==> v.1 =~= Seq::<char>::empty());
        lemma_parse_string_field::<MapEntry>(MapEntry::blank(), 1, v.0, string_field(2, v.1), first);
        lemma_parse_string_field::<MapEntry>(first, 2, v.1, none, v);
        assert(string_field(2, v.1) + none =~= string_field(2, v.1));
    }
}

// ---------------------------------------------------------------------------
// Metadata
// ---------------------------------------------------------------------------

/// The envelope of a frame: who sent it, what it is for, and how its payload
/// is to be read.  `values` holds auxiliary entries by key.
#[derive(Debug, Clone, PartialEq)]
pub struct MetaData {
    pub role: i32,
    pub service_name: String,
    pub method_name: String,
    pub seq_id: u64,
    pub virus_version: String,
    pub compress_type: i32,
    pub serialize_type: i32,
    pub message_type: i32,
    pub origin_size: i32,
    pub compressed_size: i32,
    pub values: Vec<(String, String)>,
}

/// What a `MetaData` holds.
pub struct MetaDataView {
    pub role: i32,
    pub service_name: Seq<char>,
    pub method_name: Seq<char>,
    pub seq_id: u64,
    pub virus_version: Seq<char>,
    pub compress_type: i32,
    pub serialize_type: i32,
    pub message_type: i32,
    pub origin_size: i32,
    pub compressed_size: i32,
    pub values: Seq<(Seq<char>, Seq<char>)>,
}

impl View for MetaData {
    type V = MetaDataView;

    open spec fn view(&self) -> MetaDataView {
        MetaDataView {
            role: self.role,
            service_name: self.service_name@,
            method_name: self.method_name@,
            seq_id: self.seq_id,
            virus_version: self.virus_version@,
            compress_type: self.compress_type,
            serialize_type: self.serialize_type,
            message_type: self.message_type,
            origin_size: self.origin_size,
            compressed_size: self.compressed_size,
            values: pairs(self.values@),
        }
    }
}

impl Default for MetaData {
    /// The metadata with every number zero, every string empty and no
    /// entries.
    fn default() -> (m: Self)
        ensures
            m@ == MetaData::blank(),
    {
        let m = MetaData {
            role: 0,
            service_name: String::new(),
            method_name: String::new(),
            seq_id: 0,
            virus_version: String::new(),
            compress_type: 0,
            serialize_type: 0,
            message_type: 0,
            origin_size: 0,
            compressed_size: 0,
            values: Vec::new(),
        };
        assert(m@.values =~= Seq::empty());
        m
    }
}

/// The tag of the field that holds one entry of `values`.
pub const VALUES_TAG: u32 = 11;

/// One entry of `values` as it is written: a block that holds the entry's
/// own fields.
pub open spec fn entry_field(entry: (Seq<char>, Seq<char>)) -> Seq<u8> {
    block_field(VALUES_TAG, MapEntry::wire(entry))
}

/// The entries of `values` as they are written: one after the other, first
/// to last.
pub open spec fn entries_wire(entries: Seq<(Seq<char>, Seq<char>)>) -> Seq<u8>
    decreases entries.len(),
{
    if entries.len() == 0 {
        Seq::<u8>::empty()
    } else {
        entries_wire(entries.drop_last()) + entry_field(entries.last())
    }
}

/// The body of an entry field at the front of `src`: the entry and the
/// body's width.
pub open spec fn entry_body(src: Seq<u8>) -> Option<((Seq<char>, Seq<char>), nat)> {
    match read_block(src) {
        None => None,
        Some((content, n)) => match parse::<MapEntry>(content) {
            Some(entry) => Some((entry, n)),
            None => None,
        },
    }
}

/// The scalar and string fields of the metadata as they are written.
pub open spec fn plain_fields(v: MetaDataView) -> Seq<u8> {
    int32_field(1, v.role) + string_field(2, v.service_name) + string_field(3, v.method_name)
        + uint64_field(4, v.seq_id) + string_field(5, v.virus_version) + int32_field(
        6,
        v.compress_type,
    ) + int32_field(7, v.serialize_type) + int32_field(8, v.message_type) + int32_field(
        9,
        v.origin_size,
    ) + int32_field(10, v.compressed_size)
}

impl ProtoMessage for MetaData {
    open spec fn blank() -> MetaDataView {
        MetaDataView {
            role: 0,
            service_name: Seq::<char>::empty(),
            method_name: Seq::<char>::empty(),
            seq_id: 0,
            virus_version: Seq::<char>::empty(),
            compress_type: 0,
            serialize_type: 0,
            message_type: 0,
            origin_size: 0,
            compressed_size: 0,
            values: Seq::<(Seq<char>, Seq<char>)>::empty(),
        }
    }

    open spec fn wire(v: MetaDataView) -> Seq<u8> {
        plain_fields(v) + entries_wire(v.values)
    }

    open spec fn merged(acc: MetaDataView, tag: u32, wire_type: u8, src: Seq<u8>) -> Option<
        (MetaDataView, nat),
    > {
        if tag == 1 {
            match int32_body(wire_type, src) {
                Some((x, n)) => Some((MetaDataView { role: x, ..acc }, n)),
                None => None,
            }
        } else if tag == 2 {
            match string_body(wire_type, src) {
                Some((s, n)) => Some((MetaDataView { service_name: s, ..acc }, n)),
                None => None,
            }
        } else if tag == 3 {
            match string_body(wire_type, src) {
                Some((s, n)) => Some((MetaDataView { method_name: s, ..acc }, n)),
                None => None,
            }
        } else if tag == 4 {
            match uint64_body(wire_type, src) {
                Some((x, n)) => Some((MetaDataView { seq_id: x, ..acc }, n)),
                None => None,
            }
        } else if tag == 5 {
            match string_body(wire_type, src) {
                Some((s, n)) => Some((MetaDataView { virus_version: s, ..acc }, n)),
                None => None,
            }
        } else if tag == 6 {
            match int32_body(wire_type, src) {
                Some((x, n)) => Some((MetaDataView { compress_type: x, ..acc }, n)),
                None => None,
            }
        } else if tag == 7 {
            match int32_body(wire_type, src) {
                Some((x, n)) => Some((MetaDataView { serialize_type: x, ..acc }, n)),
                None => None,
            }
        } else if tag == 8 {
            match int32_body(wire_type, src) {
                Some((x, n)) => Some((MetaDataView { message_type: x, ..acc }, n)),
                None => None,
            }
        } else if tag == 9 {
            match int32_body(wire_type, src) {
                Some((x, n)) => Some((MetaDataView { origin_size: x, ..acc }, n)),
                None => None,
            }
        } else if tag == 10 {
            match int32_body(wire_type, src) {
                Some((x, n)) => Some((MetaDataView { compressed_size: x, ..acc }, n)),
                None => None,
            }
        } else if tag == VALUES_TAG {
            match entry_body(src) {
                Some((entry, n)) => Some(
                    (MetaDataView { values: put(acc.values, entry.0, entry.1), ..acc }, n),
                ),
                None => None,
            }
        } else {
            match skipped(wire_type, tag, src) {
                Some(n) => Some((acc, n)),
                None => None,
            }
        }
    }

    open spec fn canonical(v: MetaDataView) -> bool {
        distinct_keys(v.values) && Self::wire(v).len() <= u64::MAX
    }

    fn blank_message() -> (m: Self) {
        MetaData::default()
    }

    fn encode_raw(&self, buf: &mut Vec<u8>) {
        put_int32_field(1, self.role, buf);
        put_string_field(2, &self.service_name, buf);
        put_string_field(3, &self.method_name, buf);
        put_uint64_field(4, self.seq_id, buf);
        put_string_field(5, &self.virus_version, buf);
        put_int32_field(6, self.compress_type, buf);
        put_int32_field(7, self.serialize_type, buf);
        put_int32_field(8, self.message_type, buf);
        put_int32_field(9, self.origin_size, buf);
        put_int32_field(10, self.compressed_size, buf);
        assert(buf@ =~= old(buf)@ + plain_fields(self@));
        let ghost start = buf@;
        let mut i: usize = 0;
        while i < self.values.len()
            invariant
                i <= self.values@.len(),
                buf@ == start + entries_wire(pairs(self.values@).take(i as int)),
            decreases self.values@.len() - i,
        {
            put_entry_field(&self.values[i].0, &self.values[i].1, buf);
            proof {
                let all = pairs(self.values@);
                let upto = all.take(i + 1);
                assert(upto.drop_last() =~= all.take(i as int));
                assert(upto.last() == all[i as int]);
            }
            i = i + 1;
        }
        assert(pairs(self.values@).take(i as int) =~= pairs(self.values@));
        assert(buf@ =~= old(buf)@ + Self::wire(self@));
    }

    fn merge_field<'a>(&mut self, tag: u32, wire_type: u8, src: &'a [u8]) -> (r: Result<
        &'a [u8],
        VirusError,
    >) {
        if tag == 1 {
            match merge_int32(wire_type, src) {
                Ok((x, rest)) => {
                    self.role = x;
                    Ok(rest)
                },
                Err(e) => Err(e),
            }
        } else if tag == 2 {
            match merge_string(wire_type, src) {
                Ok((text, rest)) => {
                    self.service_name = text;
                    Ok(rest)
                },
                Err(e) => Err(e),
            }
        } else if tag == 3 {
            match merge_string(wire_type, src) {
                Ok((text, rest)) => {
                    self.method_name = text;
                    Ok(rest)
                },
                Err(e) => Err(e),
            }
        } else if tag == 4 {
            match merge_uint64(wire_type, src) {
                Ok((x, rest)) => {
                    self.seq_id = x;
                    Ok(rest)
                },
                Err(e) => Err(e),
            }
        } else if tag == 5 {
            match merge_string(wire_type, src) {
                Ok((text, rest)) => {
                    self.virus_version = text;
                    Ok(rest)
                },
                Err(e) => Err(e),
            }
        } else if tag == 6 {
            match merge_int32(wire_type, src) {
                Ok((x, rest)) => {
                    self.compress_type = x;
                    Ok(rest)
                },
                Err(e) => Err(e),
            }
        } else if tag == 7 {
            match merge_int32(wire_type, src) {
                Ok((x, rest)) => {
                    self.serialize_type = x;
                    Ok(rest)
                },
                Err(e) => Err(e),
            }
        } else if tag == 8 {
            match merge_int32(wire_type, src) {
                Ok((x, rest)) => {
                    self.message_type = x;
                    Ok(rest)
                },
                Err(e) => Err(e),
            }
        } else if tag == 9 {
            match merge_int32(wire_type, src) {
                Ok((x, rest)) => {
                    self.origin_size = x;
                    Ok(rest)
                },
                Err(e) => Err(e),
            }
        } else if tag == 10 {
            match merge_int32(wire_type, src) {
                Ok((x, rest)) => {
                    self.compressed_size = x;
                    Ok(rest)
                },
                Err(e) => Err(e),
            }
        } else if tag == VALUES_TAG {
            match merge_entry(src) {
                Ok((entry, rest)) => {
                    let _ = put_entry(&mut self.values, entry.key, entry.value);
                    Ok(rest)
                },
                Err(e) => Err(e),
            }
        } else {
            merge_unknown(wire_type, tag, src)
        }
    }

    fn encoded_len(&self) -> (n: usize) {
        match checked_len(self) {
            Some(n) => n,
            None => 0,
        }
    }
}

/// Appends one entry of `values`.
pub fn put_entry_field(k: &String, v: &String, buf: &mut Vec<u8>)
    ensures
        final(buf)@ == old(buf)@ + entry_field((k@, v@)),
{
    let mut inner: Vec<u8> = Vec::new();
    put_string_field(1, k, &mut inner);
    put_string_field(2, v, &mut inner);
    assert(inner@ =~= MapEntry::wire((k@, v@)));
    put_block_field(VALUES_TAG, inner.as_slice(), buf);
}

/// Reads the body of an entry field.
pub fn merge_entry<'a>(src: &'a [u8]) -> (r: Result<(MapEntry, &'a [u8]), VirusError>)
    ensures
        match entry_body(src@) {
            Some((entry, n)) => r matches Ok((e, rest)) && e@ == entry && n <= src@.len() && rest@
                == src@.skip(n as int),
            None => r == Err::<(MapEntry, &[u8]), VirusError>(VirusError::Decoding),
        },
{
    let (content, rest) = match take_block(src) {
        Ok(found) => found,
        Err(e) => {
            return Err(e);
        },
    };
    match decode::<MapEntry>(content) {
        Ok(entry) => Ok((entry, rest)),
        Err(e) => Err(e),
    }
}

/// The width of one entry of `values` as it is written, or `None` where it
/// does not fit a `usize`.
pub fn entry_field_len(k: &String, v: &String) -> (r: Option<usize>)
    ensures
        match r {
            Some(n) => n == entry_field((k@, v@)).len(),
            None => entry_field((k@, v@)).len() > usize::MAX,
        },
{
    proof {
        lemma_block_field_len(VALUES_TAG, MapEntry::wire((k@, v@)));
    }
    let head: usize = match string_field_len(1, k) {
        Some(n) => n,
        None => {
            return None;
        },
    };
    let tail: usize = match string_field_len(2, v) {
        Some(n) => n,
        None => {
            return None;
        },
    };
    match head.checked_add(tail) {
        Some(inner) => {
            let r = block_field_len(VALUES_TAG, inner);
            assert(MapEntry::wire((k@, v@)).len() == inner);
            r
        },
        None => None,
    }
}

/// The width of the metadata as it is written, or `None` where it does not
/// fit a `usize`.
pub fn checked_len(m: &MetaData) -> (r: Option<usize>)
    ensures
        match r {
            Some(n) => n == MetaData::wire(m@).len(),
            None => MetaData::wire(m@).len() > usize::MAX,
        },
{
    let ghost v = m@;
    let mut total: usize = int32_field_len(1, m.role) + uint64_field_len(4, m.seq_id)
        + int32_field_len(6, m.compress_type) + int32_field_len(7, m.serialize_type)
        + int32_field_len(8, m.message_type) + int32_field_len(9, m.origin_size)
        + int32_field_len(10, m.compressed_size);
    let ghost strings = string_field(2, v.service_name).len() + string_field(
        3,
        v.method_name,
    ).len() + string_field(5, v.virus_version).len();
    assert(plain_fields(v).len() == total + strings);
    match string_field_len(2, &m.service_name) {
        Some(n) => match total.checked_add(n) {
            Some(sum) => {
                total = sum;
            },
            None => {
                return None;
            },
        },
        None => {
            return None;
        },
    }
    match string_field_len(3, &m.method_name) {
        Some(n) => match total.checked_add(n) {
            Some(sum) => {
                total = sum;
            },
            None => {
                return None;
            },
        },
        None => {
            return None;
        },
    }
    match string_field_len(5, &m.virus_version) {
        Some(n) => match total.checked_add(n) {
            Some(sum) => {
                total = sum;
            },
            None => {
                return None;
            },
        },
        None => {
            return None;
        },
    }
    assert(total == plain_fields(v).len());
    let mut i: usize = 0;
    while i < m.values.len()
        invariant
            i <= m.values@.len(),
            v == m@,
            total == plain_fields(v).len() + entries_wire(v.values.take(i as int)).len(),
        decreases m.values@.len() - i,
    {
        proof {
            let upto = v.values.take(i + 1);
            assert(upto.drop_last() =~= v.values.take(i as int));
            assert(upto.last() == v.values[i as int]);
            lemma_entries_wire_grows(v.values, (i + 1) as nat);
        }
        match entry_field_len(&m.values[i].0, &m.values[i].1) {
            Some(n) => match total.checked_add(n) {
                Some(sum) => {
                    total = sum;
                },
                None => {
                    return None;
                },
            },
            None => {
                return None;
            },
        }
        i = i + 1;
    }
    assert(v.values.take(i as int) =~= v.values);
    Some(total)
}

/// A field is at least as wide as its content.
pub proof fn lemma_block_field_len(tag: u32, content: Seq<u8>)
    ensures
        block_field(tag, content).len() >= content.len(),
{
}

/// Writing more entries never takes fewer bytes.
pub proof fn lemma_entries_wire_grows(entries: Seq<(Seq<char>, Seq<char>)>, n: nat)
    requires
        n <= entries.len(),
    ensures
        entries_wire(entries.take(n as int)).len() <= entries_wire(entries).len(),
    decreases entries.len() - n,
{
    if n == entries.len() {
        assert(entries.take(n as int) =~= entries);
    } else {
        lemma_entries_wire_grows(entries, n + 1);
        let upto = entries.take(n + 1 as int);
        assert(upto.drop_last() =~= entries.take(n as int));
    }
}

/// Reading the written entries adds them to the entries read before, where
/// all the keys differ.
pub proof fn lemma_parse_entries(
    acc: MetaDataView,
    entries: Seq<(Seq<char>, Seq<char>)>,
    rest: Seq<u8>,
)
    requires
        distinct_keys(acc.values + entries),
        entries_wire(entries).len() <= u64::MAX,
    ensures
        parse_from::<MetaData>(acc, entries_wire(entries) + rest) == parse_from::<MetaData>(
            MetaDataView { values: acc.values + entries, ..acc },
            rest,
        ),
    decreases entries.len(),
{
    if entries.len() == 0 {
        assert(entries_wire(entries) + rest =~= rest);
        assert(acc.values + entries =~= acc.values);
    } else {
        let init = entries.drop_last();
        let last = entries.last();
        let field = entry_field(last);
        let inner = MapEntry::wire(last);
        let body = block(inner);
        assert(entries_wire(entries) + rest =~= entries_wire(init) + (field + rest));
        assert forall|i: int, j: int| 0 <= i < j < (acc.values + init).len() implies (acc.values
            + init)[i].0 != (acc.values + init)[j].0 by {
            assert((acc.values + init)[i] == (acc.values + entries)[i]);
            assert((acc.values + init)[j] == (acc.values + entries)[j]);
        }
        lemma_parse_entries(acc, init, field + rest);
        let before = MetaDataView { values: acc.values + init, ..acc };
        let after = MetaDataView { values: acc.values + entries, ..acc };
        // The entry is read back as it was written ...
        lemma_block_field_len(VALUES_TAG, inner);
        lemma_utf8_within(last.0, 1);
        lemma_utf8_within(last.1, 2);
        lemma_read_block(inner, rest);
        MapEntry::lemma_round_trip(last);
        assert(entry_body(body + rest) == Some((last, body.len())));
        // ... and, its key being new, comes last.
        lemma_key_index(before.values, last.0);
        assert(key_index(before.values, last.0) is None) by {
            if key_index(before.values, last.0) is Some {
                let i = key_index(before.values, last.0).unwrap() as int;
                let j = (acc.values + entries).len() - 1;
                assert((acc.values + entries)[i] == before.values[i]);
                assert((acc.values + entries)[j] == last);
            }
        }
        assert(put(before.values, last.0, last.1) =~= acc.values + entries);
        lemma_parse_field::<MetaData>(before, VALUES_TAG, WIRE_LENGTH_DELIMITED, body, rest, after);
        assert(field + rest =~= key(VALUES_TAG, WIRE_LENGTH_DELIMITED) + body + rest);
    }
}

/// A string is written within the bytes of its field.
pub proof fn lemma_utf8_within(s: Seq<char>, tag: u32)
    ensures
        encode_utf8(s).len() <= string_field(tag, s).len(),
{
    lemma_utf8_empty(s);
}

/// The metadata in which the first `n` plain fields are those of `v` and
/// everything else is at its default.
pub open spec fn partial(v: MetaDataView, n: nat) -> MetaDataView {
    let blank = MetaData::blank();
    MetaDataView {
        role: if n >= 1 {
            v.role
        } else {
            blank.role
        },
        service_name: if n >= 2 {
            v.service_name
        } else {
            blank.service_name
        },
        method_name: if n >= 3 {
            v.method_name
        } else {
            blank.method_name
        },
        seq_id: if n >= 4 {
            v.seq_id
        } else {
            blank.seq_id
        },
        virus_version: if n >= 5 {
            v.virus_version
        } else {
            blank.virus_version
        },
        compress_type: if n >= 6 {
            v.compress_type
        } else {
            blank.compress_type
        },
        serialize_type: if n >= 7 {
            v.serialize_type
        } else {
            blank.serialize_type
        },
        message_type: if n >= 8 {
            v.message_type
        } else {
            blank.message_type
        },
        origin_size: if n >= 9 {
            v.origin_size
        } else {
            blank.origin_size
        },
        compressed_size: if n >= 10 {
            v.compressed_size
        } else {
            blank.compressed_size
        },
        values: blank.values,
    }
}

/// The plain field with the tag `n` as it is written.
pub open spec fn plain_field(v: MetaDataView, n: nat) -> Seq<u8> {
    if n == 1 {
        int32_field(1, v.role)
    } else if n == 2 {
        string_field(2, v.service_name)
    } else if n == 3 {
        string_field(3, v.method_name)
    } else if n == 4 {
        uint64_field(4, v.seq_id)
    } else if n == 5 {
        string_field(5, v.virus_version)
    } else if n == 6 {
        int32_field(6, v.compress_type)
    } else if n == 7 {
        int32_field(7, v.serialize_type)
    } else if n == 8 {
        int32_field(8, v.message_type)
    } else if n == 9 {
        int32_field(9, v.origin_size)
    } else {
        int32_field(10, v.compressed_size)
    }
}

proof fn lemma_parse_plain_int32(v: MetaDataView, n: nat, rest: Seq<u8>)
    requires
        n == 1 || 6 <= n <= 10,
    ensures
        parse_from::<MetaData>(partial(v, (n - 1) as nat), plain_field(v, n) + rest)
            == parse_from::<MetaData>(partial(v, n), rest),
{
    let acc = partial(v, (n - 1) as nat);
    let next = partial(v, n);
    if n == 1 {
        lemma_parse_int32_field::<MetaData>(acc, 1, v.role, rest, next);
    } else if n == 6 {
        lemma_parse_int32_field::<MetaData>(acc, 6, v.compress_type, rest, next);
    } else if n == 7 {
        lemma_parse_int32_field::<MetaData>(acc, 7, v.serialize_type, rest, next);
    } else if n == 8 {
        lemma_parse_int32_field::<MetaData>(acc, 8, v.message_type, rest, next);
    } else if n == 9 {
        lemma_parse_int32_field::<MetaData>(acc, 9, v.origin_size, rest, next);
    } else {
        lemma_parse_int32_field::<MetaData>(acc, 10, v.compressed_size, rest, next);
    }
}

proof fn lemma_parse_plain_string(v: MetaDataView, n: nat, rest: Seq<u8>)
    requires
        n == 2 || n == 3 || n == 5,
        encode_utf8(v.service_name).len() <= u64::MAX,
        encode_utf8(v.method_name).len() <= u64::MAX,
        encode_utf8(v.virus_version).len() <= u64::MAX,
    ensures
        parse_from::<MetaData>(partial(v, (n - 1) as nat), plain_field(v, n) + rest)
            == parse_from::<MetaData>(partial(v, n), rest),
{
    let acc = partial(v, (n - 1) as nat);
    let next = partial(v, n);
    if n == 2 {
        assert(v.service_name.len() == 0 ==> v.service_name =~= Seq::<char>::empty());
        lemma_parse_string_field::<MetaData>(acc, 2, v.service_name, rest, next);
    } else if n == 3 {
        assert(v.method_name.len() == 0 ==> v.method_name =~= Seq::<char>::empty());
        lemma_parse_string_field::<MetaData>(acc, 3, v.method_name, rest, next);
    } else {
        assert(v.virus_version.len() == 0 ==> v.virus_version =~= Seq::<char>::empty());
        lemma_parse_string_field::<MetaData>(acc, 5, v.virus_version, rest, next);
    }
}

proof fn lemma_parse_plain_uint64(v: MetaDataView, rest: Seq<u8>)
    ensures
        parse_from::<MetaData>(partial(v, 3), plain_field(v, 4) + rest) == parse_from::<MetaData>(
            partial(v, 4),
            rest,
        ),
{
    lemma_parse_uint64_field::<MetaData>(partial(v, 3), 4, v.seq_id, rest, partial(v, 4));
}

/// The plain fields from the one with the tag `n` on, as they are written.
pub open spec fn plain_from(v: MetaDataView, n: nat) -> Seq<u8>
    decreases 11 - n,
{
    if n >= 11 {
        Seq::<u8>::empty()
    } else {
        plain_field(v, n) + plain_from(v, n + 1)
    }
}

proof fn lemma_parse_plain_from(v: MetaDataView, n: nat, rest: Seq<u8>)
    requires
        1 <= n <= 11,
        encode_utf8(v.service_name).len() <= u64::MAX,
        encode_utf8(v.method_name).len() <= u64::MAX,
        encode_utf8(v.virus_version).len() <= u64::MAX,
    ensures
        parse_from::<MetaData>(partial(v, (n - 1) as nat), plain_from(v, n) + rest)
            == parse_from::<MetaData>(partial(v, 10), rest),
    decreases 11 - n,
{
    if n >= 11 {
        assert(plain_from(v, n) + rest =~= rest);
    } else {
        let tail = plain_from(v, n + 1) + rest;
        assert(plain_from(v, n) + rest =~= plain_field(v, n) + tail);
        if n == 1 || n >= 6 {
            lemma_parse_plain_int32(v, n, tail);
        } else if n == 4 {
            lemma_parse_plain_uint64(v, tail);
        } else {
            lemma_parse_plain_string(v, n, tail);
        }
        lemma_parse_plain_from(v, n + 1, rest);
    }
}

proof fn lemma_regroup(
    a: Seq<u8>,
    b: Seq<u8>,
    c: Seq<u8>,
    d: Seq<u8>,
    e: Seq<u8>,
    f: Seq<u8>,
    g: Seq<u8>,
    h: Seq<u8>,
    i: Seq<u8>,
    j: Seq<u8>,
)
    ensures
        a + b + c + d + e + f + g + h + i + j == a + (b + (c + (d + (e + (f + (g + (h + (i + (j
            + Seq::<u8>::empty()))))))))),
{
    assert(a + b + c + d + e + f + g + h + i + j =~= a + (b + (c + (d + (e + (f + (g + (h + (i
        + (j + Seq::<u8>::empty()))))))))));
}

proof fn lemma_plain_fields(v: MetaDataView)
    ensures
        plain_fields(v) == plain_from(v, 1),
{
    let a = plain_field(v, 1);
    let b = plain_field(v, 2);
    let c = plain_field(v, 3);
    let d = plain_field(v, 4);
    let e = plain_field(v, 5);
    let f = plain_field(v, 6);
    let g = plain_field(v, 7);
    let h = plain_field(v, 8);
    let i = plain_field(v, 9);
    let j = plain_field(v, 10);
    assert(plain_from(v, 11) == Seq::<u8>::empty());
    assert(plain_from(v, 10) == j + plain_from(v, 11));
    assert(plain_from(v, 9) == i + plain_from(v, 10));
    assert(plain_from(v, 8) == h + plain_from(v, 9));
    assert(plain_from(v, 7) == g + plain_from(v, 8));
    assert(plain_from(v, 6) == f + plain_from(v, 7));
    assert(plain_from(v, 5) == e + plain_from(v, 6));
    assert(plain_from(v, 4) == d + plain_from(v, 5));
    assert(plain_from(v, 3) == c + plain_from(v, 4));
    assert(plain_from(v, 2) == b + plain_from(v, 3));
    assert(plain_from(v, 1) == a + plain_from(v, 2));
    assert(plain_fields(v) == a + b + c + d + e + f + g + h + i + j);
    lemma_regroup(a, b, c, d, e, f, g, h, i, j);
}

impl RoundTrip for MetaData {
    proof fn lemma_round_trip(v: MetaDataView) {
        let none = Seq::<u8>::empty();
        let entries = entries_wire(v.values);
        lemma_plain_fields(v);
        lemma_utf8_within(v.service_name, 2);
        lemma_utf8_within(v.method_name, 3);
        lemma_utf8_within(v.virus_version, 5);
        assert(plain_fields(v).len() >= string_field(2, v.service_name).len());
        assert(plain_fields(v).len() >= string_field(3, v.method_name).len());
        assert(plain_fields(v).len() >= string_field(5, v.virus_version).len());
        lemma_parse_plain_from(v, 1, entries);
        let plain = partial(v, 10);
        assert(plain.values + v.values =~= v.values);
        lemma_parse_entries(plain, v.values, none);
        assert(entries + none =~= entries);
        assert(MetaDataView { values: plain.values + v.values, ..plain } == v);
    }
}

/// The metadata has the fields 1 to 11 and no other.
pub proof fn lemma_metadata_passes_over(tag: u32)
    requires
        tag == 0 || tag > VALUES_TAG,
    ensures
        passes_over::<MetaData>(tag),
{
}

} // verus!
