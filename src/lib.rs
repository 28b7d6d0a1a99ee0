//! Well known protobuf message types: timestamps and durations with their
//! canonical forms and text forms, and an envelope that carries a message of
//! any registered type with its type URL.
//!
//! - `time`: timestamps, durations and their normalization.
//! - `datetime`: the proleptic Gregorian calendar.
//! - `text`: parsing RFC 3339 timestamps and protobuf JSON durations.
//! - `format`: writing them.
//! - `round_trip`: what is written reads back as the normalized value.
//! - `wire`: the protobuf wire form, through `prost`.
//! - `any`: the envelope, the type registry and messages of run time type.
//! - `options`: type URL schemes for generated message types.

pub mod any;
pub mod datetime;
pub mod format;
pub mod options;
pub mod round_trip;
pub mod text;
pub mod time;
pub mod wire;
