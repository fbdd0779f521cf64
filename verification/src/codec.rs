//! Protobuf encoding for the IPC envelopes.

use crate::message;
use crate::message::{Message, Reader};
use crate::protobuf;
use vstd::prelude::*;
use vstd::string::StringExecFns;

verus! {

/// The payload of an IPC command.
#[derive(Clone, Debug)]
pub enum InvokeBody {
    /// Raw bytes, as an `ArrayBuffer` arrives.
    Raw(Vec<u8>),
    /// Anything else. What the JSON says is never looked at.
    Json,
}

/// What a payload says as the argument of a command, or an error text.
pub open spec fn argument<T: Message>(body: InvokeBody) -> Result<T::V, Seq<char>> {
    match body {
        InvokeBody::Json => Err("expected a raw IPC payload; send an ArrayBuffer"@),
        InvokeBody::Raw(bytes) => match message::decoding::<T>(bytes@) {
            Ok(value) => Ok(value),
            Err(text) => Err("malformed transport frame: "@ + text),
        },
    }
}

/// Decode a command argument from a raw IPC payload.
///
/// Rejects JSON payloads: the webview always sends an `ArrayBuffer`, so a JSON
/// body means a hand-rolled caller or a version mismatch, and silently accepting
/// the number-array form would hide the cost that the protobuf envelope avoids.
pub fn decode<T: Message>(body: &InvokeBody) -> (r: Result<T, String>)
    ensures
        match argument::<T>(*body) {
            Ok(value) => r matches Ok(t) && t@ == value,
            Err(text) => r matches Err(e) && e@ == text,
        },
{
    match body {
        InvokeBody::Json => Err("expected a raw IPC payload; send an ArrayBuffer".to_string()),
        InvokeBody::Raw(bytes) => match decode_bytes(bytes.as_slice()) {
            Ok(value) => Ok(value),
            Err(e) => Err("malformed transport frame: ".to_string().concat(e.as_str())),
        },
    }
}

/// Decode a message from its bytes.
pub fn decode_bytes<T: Message>(bytes: &[u8]) -> (r: Result<T, String>)
    ensures
        match message::decoding::<T>(bytes@) {
            Ok(value) => r matches Ok(t) && t@ == value,
            Err(text) => r matches Err(e) && e@ == text,
        },
{
    let mut value = T::fresh();
    let mut reader = Reader::new(bytes);
    match message::merge_until(&mut value, &mut reader, bytes.len(), protobuf::RECURSION_LIMIT) {
        Ok(()) => Ok(value),
        Err(e) => Err(e),
    }
}

/// Encode a value for the IPC response or a channel frame.
pub fn encode<T: Message>(value: &T) -> (r: Vec<u8>)
    requires
        message::encoding::<T>(value@).len() <= protobuf::MAX_MESSAGE_BYTES,
    ensures
        r@ == message::encoding::<T>(value@),
{
    let mut out: Vec<u8> = Vec::new();
    value.write_to(&mut out);
    assert(out@ =~= message::encoding::<T>(value@));
    out
}

/// Encode a value, unless its bytes are over the size limit of a message.
pub fn try_encode<T: Message>(value: &T) -> (r: Option<Vec<u8>>)
    ensures
        match r {
            Some(bytes) => {
                &&& bytes@ == message::encoding::<T>(value@)
                &&& bytes@.len() <= protobuf::MAX_MESSAGE_BYTES
            },
            None => message::encoding::<T>(value@).len() > protobuf::MAX_MESSAGE_BYTES,
        },
        r is Some <==> message::encoding::<T>(value@).len() <= 0x7fffffff,
{
    let mut out: Vec<u8> = Vec::new();
    value.write_to(&mut out);
    assert(out@ =~= message::encoding::<T>(value@));
    if out.len() <= protobuf::MAX_MESSAGE_BYTES as usize {
        Some(out)
    } else {
        None
    }
}

/// A raw payload says what its bytes say, and an error in them is reported with what it
/// is. A payload that is not raw says nothing, whatever command it is for.
pub proof fn a_payload_says_what_its_bytes_say<T: Message>(bytes: Vec<u8>)
    ensures
        message::decoding::<T>(bytes@) matches Ok(value) ==> argument::<T>(InvokeBody::Raw(bytes))
            == Ok::<T::V, Seq<char>>(value),
        message::decoding::<T>(bytes@) matches Err(text) ==> argument::<T>(InvokeBody::Raw(bytes))
            == Err::<T::V, Seq<char>>("malformed transport frame: "@ + text),
        argument::<T>(InvokeBody::Json) == Err::<T::V, Seq<char>>(
            "expected a raw IPC payload; send an ArrayBuffer"@,
        ),
{
}

/// What is encoded reaches a command as it was.
pub proof fn an_argument_arrives_as_it_was_sent<T: message::Lossless>(bytes: Vec<u8>, value: T::V)
    requires
        bytes@ == message::encoding::<T>(value),
        bytes@.len() <= protobuf::MAX_MESSAGE_BYTES,
        T::levels() <= protobuf::RECURSION_LIMIT,
        T::sound(value, protobuf::RECURSION_LIMIT),
        T::cost(value, protobuf::RECURSION_LIMIT).unknown <= protobuf::UNKNOWN_FIELD_LIMIT,
        T::cost(value, protobuf::RECURSION_LIMIT).memory <= protobuf::ELEMENT_MEMORY_LIMIT,
    ensures
        argument::<T>(InvokeBody::Raw(bytes)) == Ok::<T::V, Seq<char>>(value),
{
    message::round_trip::<T>(value);
}

} // verus!
