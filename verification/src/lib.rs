//! Decoder for a type-tagged JSON encoding of graph query results.
//!
//! Every value on the wire is an envelope: a JSON object that pairs a type
//! discriminator (`$type`) with a payload (`_value`). The decoder turns a
//! parsed JSON tree into a [`Val`], one of a closed set of typed values, or
//! says which rule the input broke.
//!
//! * [`json`] holds the JSON tree that the decoder reads.
//! * [`value`] holds the typed values and their mathematical models.
//! * [`scalar`] and [`temporal`] read the payloads that arrive as text.
//! * [`decode`] says what every envelope decodes to, and decodes it.
//! * [`trace`] finds where in the input a failure lies.
//! * [`laws`] proves what holds of decoding in general.

pub mod decode;
pub mod error;
pub mod json;
pub mod laws;
pub mod scalar;
pub mod temporal;
pub mod text;
pub mod trace;
pub mod value;

pub use decode::{decode, decode_with_limit, DEFAULT_DEPTH_LIMIT};
pub use error::DecodeError;
pub use json::{Json, JsonNumber, Member};
pub use temporal::{Date, DateTime, Duration, Time, ZoneDateTime};
pub use trace::{decode_located, locate, Failure, Step};
pub use value::{Entry, Node, Path, Relationship, Val, ValMap};
