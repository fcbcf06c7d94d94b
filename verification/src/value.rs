//! Stored values and the encodings that they are stored in.

use crate::bytes::{
    base256, copy_bytes, le64_decode, le64_encode, le_bytes, le_number, lemma_le_bytes,
    lemma_le_number,
};
use crate::views::opt_view;
use vstd::prelude::*;

verus! {

/// The encoding of a value that the V8 engine serialized.
pub const VALUE_ENCODING_V8: i64 = 1;

/// The encoding of a 64-bit number, in eight little-endian bytes.
pub const VALUE_ENCODING_LE64: i64 = 2;

/// The encoding of a byte string.
pub const VALUE_ENCODING_BYTES: i64 = 3;

/// A value of the store.
#[derive(Debug, PartialEq, Eq)]
pub enum KvValue {
    /// A value that the V8 engine serialized; opaque here.
    V8(Vec<u8>),
    /// A byte string.
    Bytes(Vec<u8>),
    /// A number.
    U64(u64),
}

/// What a `KvValue` stands for.
pub enum Value {
    V8(Seq<u8>),
    Bytes(Seq<u8>),
    U64(u64),
}

impl View for KvValue {
    type V = Value;

    open spec fn view(&self) -> Value {
        match self {
            KvValue::V8(bytes) => Value::V8(bytes@),
            KvValue::Bytes(bytes) => Value::Bytes(bytes@),
            KvValue::U64(n) => Value::U64(*n),
        }
    }
}

/// The bytes and the encoding in which a value is stored.
pub open spec fn encoded(value: Value) -> (Seq<u8>, i64) {
    match value {
        Value::V8(bytes) => (bytes, VALUE_ENCODING_V8),
        Value::Bytes(bytes) => (bytes, VALUE_ENCODING_BYTES),
        Value::U64(n) => (le_bytes(n as nat, 8), VALUE_ENCODING_LE64),
    }
}

/// The value that `bytes` in `encoding` stand for, if the encoding is known.
pub open spec fn decoded(bytes: Seq<u8>, encoding: i64) -> Option<Value> {
    if encoding == VALUE_ENCODING_V8 {
        Some(Value::V8(bytes))
    } else if encoding == VALUE_ENCODING_BYTES {
        Some(Value::Bytes(bytes))
    } else if encoding == VALUE_ENCODING_LE64 {
        Some(Value::U64(le_number(bytes) as u64))
    } else {
        None
    }
}

/// Whether `bytes` can stand in `encoding`: a number has eight of them.
pub open spec fn well_encoded(bytes: Seq<u8>, encoding: i64) -> bool {
    encoding == VALUE_ENCODING_LE64 ==> bytes.len() == 8
}

/// Decodes a value; `None` where the encoding is not known.
pub fn decode_value(value: Vec<u8>, encoding: i64) -> (result: Option<KvValue>)
    requires
        well_encoded(value@, encoding),
    ensures
        opt_view(result) == decoded(value@, encoding),
{
    if encoding == VALUE_ENCODING_V8 {
        Some(KvValue::V8(value))
    } else if encoding == VALUE_ENCODING_BYTES {
        Some(KvValue::Bytes(value))
    } else if encoding == VALUE_ENCODING_LE64 {
        Some(KvValue::U64(le64_decode(&value)))
    } else {
        None
    }
}

/// Encodes a value.
pub fn encode_value(value: &KvValue) -> (stored: (Vec<u8>, i64))
    ensures
        (stored.0@, stored.1) == encoded(value@),
{
    match value {
        KvValue::V8(bytes) => (copy_bytes(bytes), VALUE_ENCODING_V8),
        KvValue::Bytes(bytes) => (copy_bytes(bytes), VALUE_ENCODING_BYTES),
        KvValue::U64(n) => (le64_encode(*n), VALUE_ENCODING_LE64),
    }
}

/// Encodes a value that is not needed any more.
pub fn encode_value_owned(value: KvValue) -> (stored: (Vec<u8>, i64))
    ensures
        (stored.0@, stored.1) == encoded(value@),
{
    match value {
        KvValue::V8(bytes) => (bytes, VALUE_ENCODING_V8),
        KvValue::Bytes(bytes) => (bytes, VALUE_ENCODING_BYTES),
        KvValue::U64(n) => (le64_encode(n), VALUE_ENCODING_LE64),
    }
}

impl KvValue {
    /// A copy of the value.
    pub fn copy(&self) -> (copy: KvValue)
        ensures
            copy@ == self@,
    {
        match self {
            KvValue::V8(bytes) => KvValue::V8(copy_bytes(bytes)),
            KvValue::Bytes(bytes) => KvValue::Bytes(copy_bytes(bytes)),
            KvValue::U64(n) => KvValue::U64(*n),
        }
    }
}

/// What was encoded decodes to itself.
pub proof fn decoding_undoes_encoding(value: Value)
    ensures
        well_encoded(encoded(value).0, encoded(value).1),
        decoded(encoded(value).0, encoded(value).1) == Some(value),
{
    if let Value::U64(n) = value {
        lemma_le_bytes(n as nat, 8);
        assert(n < base256(8)) by {
            reveal_with_fuel(base256, 9);
        }
    }
}

/// Stored bytes that decode are those that their value encodes to.
pub proof fn encoding_undoes_decoding(bytes: Seq<u8>, encoding: i64)
    requires
        well_encoded(bytes, encoding),
        decoded(bytes, encoding) is Some,
    ensures
        encoded(decoded(bytes, encoding)->0) == (bytes, encoding),
{
    lemma_le_number(bytes);
    assert(base256(8) == 0x1_0000_0000_0000_0000) by {
        reveal_with_fuel(base256, 9);
    }
}

} // verus!
