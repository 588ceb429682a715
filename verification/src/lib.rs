//! A length-delimited field codec for a protobuf-style binary wire format.
//!
//! The crate encodes and decodes byte-sequence and UTF-8 string fields
//! (tag, wire type, varint length prefix, raw payload) and provides
//! an immutable shared string whose backing bytes are valid UTF-8 at
//! every observable point.

pub mod buffer;
pub mod bytestring;
pub mod encoding;
pub mod shared;
pub mod utf8;
pub mod wire;
