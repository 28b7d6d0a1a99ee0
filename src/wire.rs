//! The protobuf wire form of the well known messages, through `prost`.

use vstd::prelude::*;

verus! {

/// Why `prost` could not decode a message.
#[verifier::external_type_specification]
#[verifier::external_body]
pub struct ExDecodeError(prost::DecodeError);

/// The base 128 varint bytes of `v`, low groups first.
pub open spec fn varint(v: nat) -> Seq<u8>
    decreases v,
{
    if v < 128 {
        seq![v as u8]
    } else {
        seq![(v % 128 + 128) as u8] + varint(v / 128)
    }
}

/// A signed integer as the 64 bit two's complement value that a varint
/// carries.
pub open spec fn as_u64(v: int) -> nat {
    if v < 0 {
        (v + 0x1_0000_0000_0000_0000) as nat
    } else {
        v as nat
    }
}

/// A proto3 `int64` or `int32` field with number `field`: nothing for zero,
/// else its key byte and its value as a varint.
pub open spec fn int_field(field: int, v: int) -> Seq<u8> {
    if v == 0 {
        seq![]
    } else {
        seq![(field * 8) as u8] + varint(as_u64(v))
    }
}

/// The wire form of a message with `int64 seconds = 1` and `int32 nanos = 2`,
/// the fields of both `Timestamp` and `Duration`.
pub open spec fn seconds_nanos_wire(seconds: i64, nanos: i32) -> Seq<u8> {
    int_field(1, seconds as int) + int_field(2, nanos as int)
}

/// Seconds and nanoseconds, the fields of a `Timestamp` or a `Duration`.
pub type SecondsNanos = (i64, i32);

/// The fields of a decoded `Timestamp` or `Duration`, or why decoding failed.
pub type FieldsResult = Result<SecondsNanos, prost::DecodeError>;

/// Relies on `prost::Message::encode_to_vec` for `prost_types::Timestamp`,
/// which writes the non-zero fields in field order.
#[verifier::external_body]
pub(crate) fn encode_timestamp(seconds: i64, nanos: i32) -> (r: Vec<u8>)
    ensures
        r@ == seconds_nanos_wire(seconds, nanos),
{
    prost::Message::encode_to_vec(&prost_types::Timestamp { seconds, nanos })
}

/// Relies on `prost::Message::decode` for `prost_types::Timestamp`, which
/// reads back the fields of a message that it wrote.
#[verifier::external_body]
pub(crate) fn decode_timestamp(bytes: &[u8]) -> (r: FieldsResult)
    ensures
        forall|seconds: i64, nanos: i32|
            bytes@ == #[trigger] seconds_nanos_wire(seconds, nanos) ==> r == FieldsResult::Ok((seconds, nanos)),
{
    let m = <prost_types::Timestamp as prost::Message>::decode(bytes)?;
    Ok((m.seconds, m.nanos))
}

/// Relies on `prost::Message::encode_to_vec` for `prost_types::Duration`,
/// which writes the non-zero fields in field order.
#[verifier::external_body]
pub(crate) fn encode_duration(seconds: i64, nanos: i32) -> (r: Vec<u8>)
    ensures
        r@ == seconds_nanos_wire(seconds, nanos),
{
    prost::Message::encode_to_vec(&prost_types::Duration { seconds, nanos })
}

/// Relies on `prost::Message::decode` for `prost_types::Duration`, which
/// reads back the fields of a message that it wrote.
#[verifier::external_body]
pub(crate) fn decode_duration(bytes: &[u8]) -> (r: FieldsResult)
    ensures
        forall|seconds: i64, nanos: i32|
            bytes@ == #[trigger] seconds_nanos_wire(seconds, nanos) ==> r == FieldsResult::Ok((seconds, nanos)),
{
    let m = <prost_types::Duration as prost::Message>::decode(bytes)?;
    Ok((m.seconds, m.nanos))
}

/// Relies on `prost::Message::decode` for `()`, the message without fields,
/// which accepts the empty input.
#[verifier::external_body]
pub(crate) fn decode_empty(bytes: &[u8]) -> (r: Result<(), prost::DecodeError>)
    ensures
        bytes@.len() == 0 ==> r is Ok,
{
    <() as prost::Message>::decode(bytes)
}

/// Relies on the `Display` text of `prost::DecodeError`.
#[verifier::external_body]
pub(crate) fn decode_error_text(error: &prost::DecodeError) -> (r: String) {
    error.to_string()
}

} // verus!
