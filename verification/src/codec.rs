//! The calls into bincode that the wire format is built from.
//!
//! Integers are spelled by bincode's default configuration: a fixed width, the
//! least significant byte first. Text is read back by bincode too, which checks
//! that it is UTF-8.
use vstd::prelude::*;
use vstd::utf8::*;

use crate::le::{le_bytes, le_value};

verus! {

/// bincode's error, carried as an opaque value. `bincode::Error` is a box around it.
#[verifier::external_type_specification]
#[verifier::external_body]
pub struct ExBincodeErrorKind(bincode::ErrorKind);

/// Whether `s` starts with a byte string: its length as eight little-endian
/// bytes, and then at least that many bytes.
pub open spec fn has_byte_string(s: Seq<u8>) -> bool {
    &&& s.len() >= 8
    &&& s.len() - 8 >= le_value(s.take(8))
}

/// The byte string that `s` starts with, without its length.
pub open spec fn byte_string(s: Seq<u8>) -> Seq<u8>
    recommends
        has_byte_string(s),
{
    s.subrange(8, 8 + le_value(s.take(8)) as int)
}

/// Whether `s` starts with a byte string that is UTF-8.
pub open spec fn has_text(s: Seq<u8>) -> bool {
    has_byte_string(s) && valid_utf8(byte_string(s))
}

/// Calls `bincode::serialize` on a `u16`, which is taken to give its two
/// little-endian bytes and never to fail.
#[verifier::external_body]
pub(crate) fn serialize_u16(value: u16) -> (bytes: Vec<u8>)
    ensures
        bytes@ == le_bytes(value as nat, 2),
{
    bincode::serialize(&value).expect("an integer is always serializable")
}

/// Calls `bincode::serialize` on a `u32`, which is taken to give its four
/// little-endian bytes and never to fail.
#[verifier::external_body]
pub(crate) fn serialize_u32(value: u32) -> (bytes: Vec<u8>)
    ensures
        bytes@ == le_bytes(value as nat, 4),
{
    bincode::serialize(&value).expect("an integer is always serializable")
}

/// Calls `bincode::serialize` on a `u64`, which is taken to give its eight
/// little-endian bytes and never to fail.
#[verifier::external_body]
pub(crate) fn serialize_u64(value: u64) -> (bytes: Vec<u8>)
    ensures
        bytes@ == le_bytes(value as nat, 8),
{
    bincode::serialize(&value).expect("an integer is always serializable")
}

/// Calls `bincode::deserialize` for a `u16`, which is taken to read the first
/// two bytes as a little-endian number, to ignore what follows them, and to
/// fail exactly where there are fewer than two.
#[verifier::external_body]
pub(crate) fn deserialize_u16(buf: &[u8]) -> (r: Result<u16, bincode::Error>)
    ensures
        r is Ok <==> buf@.len() >= 2,
        r matches Ok(value) ==> value == le_value(buf@.take(2)),
{
    bincode::deserialize(buf)
}

/// Calls `bincode::deserialize` for a `u32`, which is taken to read the first
/// four bytes as a little-endian number, to ignore what follows them, and to
/// fail exactly where there are fewer than four.
#[verifier::external_body]
pub(crate) fn deserialize_u32(buf: &[u8]) -> (r: Result<u32, bincode::Error>)
    ensures
        r is Ok <==> buf@.len() >= 4,
        r matches Ok(value) ==> value == le_value(buf@.take(4)),
{
    bincode::deserialize(buf)
}

/// Calls `bincode::deserialize` for a `u64`, which is taken to read the first
/// eight bytes as a little-endian number, to ignore what follows them, and to
/// fail exactly where there are fewer than eight.
#[verifier::external_body]
pub(crate) fn deserialize_u64(buf: &[u8]) -> (r: Result<u64, bincode::Error>)
    ensures
        r is Ok <==> buf@.len() >= 8,
        r matches Ok(value) ==> value == le_value(buf@.take(8)),
{
    bincode::deserialize(buf)
}

/// Calls `bincode::deserialize` for a `String`, which is taken to read a byte
/// string and decode it as UTF-8, to ignore what follows it, and to fail exactly
/// where the bytes run out or are not UTF-8.
#[verifier::external_body]
pub(crate) fn deserialize_string(buf: &[u8]) -> (r: Result<String, bincode::Error>)
    ensures
        r is Ok <==> has_text(buf@),
        r matches Ok(text) ==> text@ == decode_utf8(byte_string(buf@)),
{
    bincode::deserialize(buf)
}

} // verus!
