//! The schema'd codec: messages in the field-tagged binary format.

use crate::codec::Deserializer;
use crate::codec::Serializer;
use crate::error::VirusError;
use crate::protocol::wire::decode;
use crate::protocol::wire::encode_to_vec;
use crate::protocol::wire::parse;
use crate::protocol::wire::ProtoMessage;
use crate::protocol::wire::RoundTrip;
use std::marker::PhantomData;
use vstd::prelude::*;

verus! {

/// The codec for messages of type `T`.  It holds no state.
#[derive(Debug)]
pub struct ProtoCodec<T>(PhantomData<T>);

impl<T> Clone for ProtoCodec<T> {
    fn clone(&self) -> (codec: Self) {
        ProtoCodec(PhantomData)
    }
}

impl<T: ProtoMessage> Serializer for ProtoCodec<T> {
    type Item = T;

    type Error = VirusError;

    open spec fn accepts(v: T::V) -> bool {
        true
    }

    open spec fn encoding(v: T::V) -> Seq<u8> {
        T::wire(v)
    }

    /// Writes the fields of `item`.  This never fails.
    fn serialize(&mut self, item: T) -> (r: Result<Vec<u8>, VirusError>) {
        Ok(encode_to_vec(&item))
    }
}

impl<T: ProtoMessage> Deserializer for ProtoCodec<T> {
    type Item = T;

    type Error = VirusError;

    open spec fn decoding(src: Seq<u8>) -> Option<T::V> {
        parse::<T>(src)
    }

    /// Reads the fields in `src`; a malformed block is a decoding error.
    fn deserialize(&mut self, src: &[u8]) -> (r: Result<Option<T>, VirusError>)
        ensures
            r is Err ==> r == Err::<Option<T>, VirusError>(VirusError::Decoding),
    {
        match decode::<T>(src) {
            Ok(item) => Ok(Some(item)),
            Err(e) => Err(e),
        }
    }
}

impl<T> Default for ProtoCodec<T> {
    fn default() -> (codec: Self) {
        ProtoCodec(PhantomData)
    }
}

/// What the schema'd codec serializes, it deserializes to the same value.
pub proof fn lemma_proto_round_trip<T: RoundTrip>(v: T::V)
    requires
        T::canonical(v),
    ensures
        ProtoCodec::<T>::decoding(ProtoCodec::<T>::encoding(v)) == Some(v),
{
    T::lemma_round_trip(v);
}

} // verus!
